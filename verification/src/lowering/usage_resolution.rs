//! Resolving a collected usage: its type, reference target, allocation
//! endpoints, additional types, specializations, subsettings and
//! redefinitions, each to an id, in that order, and then its members.
//!
//! The first reference that does not resolve fails the usage, unless the
//! policy keeps unresolved references as written. The specification's
//! outer `None` marks a usage some resolution of which does not end.
use vstd::prelude::*;

use crate::kerml::ast::{MultiplicityView, QualifiedNameView, join_colon, join_dot, opt_multiplicity_view, strings_view};
use crate::kerml::ast::{QualifiedName, clone_names, clone_opt_multiplicity, clone_opt_name, clone_strings, names_view, opt_name_view};
use crate::kerml::token::{Diagnostic, SourceSpan};
use crate::lowering::bundle::{MappingBundle, MappingView, opt_slice, opt_string_view};
use crate::lowering::collect::{CollectedDefinition, CollectedDefinitionView, CollectedUsage, CollectedUsageView, cusages_view, lemma_cusages_view_index, lemma_cusages_view_push};
use crate::lowering::context::definition_lookup;
use crate::lowering::elaborate::{has_elaboration_rule, has_step};
use crate::lowering::feature_refs::{Tables, TablesView, feature_type, inherit_context, scoped_ends, scoped_value};
use crate::lowering::feature_search::{
    feature_ref_ends, feature_ref_value, redefinition_ends, redefinition_value, reference_target_ends,
    reference_target_value, typed_through_ends, typed_through_value, resolve_feature_reference,
    resolve_reference_usage_target, resolve_redefinition_feature_reference, resolve_usage_type_excluding,
    infer_usage_type_from_feature_id,
};
use crate::lowering::imports::ResolvePolicy;
use crate::lowering::ir::{ResolvedDefinition, ResolvedUsage};
use crate::lowering::indexes::usage_lookup;
use crate::lowering::inherit::{specializations_end, type_ends, type_value};
use crate::lowering::local_refs::{
    annotation_target, modifier_alias_matches, named_definition_type, resolve_comment_annotation_target,
    infer_named_definition_type_ref, is_self_feature_reference, unique_feature_modifier_alias_match_excluding,
};
use crate::lowering::resolve::{unique, opt_str_view, feature_id_from_qualified_name};
use crate::strmap::lookup;
use crate::lowering::usage_semantics::strings_contain;
use crate::lowering::types::{resolve_type_reference, resolve_type_reference_in_scope};
use crate::text::{concat2, concat3, is_prefix, str_eq, strip_prefix_str};

verus! {

// ---------------------------------------------------------------- outcomes

/// A reference that fails a usage: the message and where it was written.
pub struct Failure {
    pub message: Seq<char>,
    pub span: SourceSpan,
}

/// The failure for an unresolved reference of `kind` written as `n`.
pub open spec fn failure(kind: Seq<char>, n: QualifiedNameView) -> Failure {
    Failure { message: "unresolved "@ + kind + " `"@ + join_colon(n.segments) + "`"@, span: n.span }
}

/// A found id, else the reference as written where the policy keeps it,
/// else the failure.
pub open spec fn unresolved(found: Option<Seq<char>>, n: QualifiedNameView, kind: Seq<char>, p: ResolvePolicy) -> Result<
    Seq<char>,
    Failure,
> {
    match found {
        Some(x) => Ok(x),
        None => if p.preserve_unresolved_references {
            Ok(join_colon(n.segments))
        } else {
            Err(failure(kind, n))
        },
    }
}

/// A resolved usage, as characters.
pub struct ResolvedUsageView {
    pub construct: Seq<char>,
    pub owner_construct: Seq<char>,
    pub owner_qualified_name: Seq<char>,
    pub qualified_name: Seq<char>,
    pub declared_name: Seq<char>,
    pub is_implicit_name: bool,
    pub has_explicit_type: bool,
    pub type_ref: Option<Seq<char>>,
    pub additional_type_refs: Seq<Seq<char>>,
    pub reference_target: Option<Seq<char>>,
    pub allocation_source: Option<Seq<char>>,
    pub allocation_target: Option<Seq<char>>,
    pub metadata_properties: Seq<(Seq<char>, String)>,
    pub multiplicity: Option<MultiplicityView>,
    pub has_expression: bool,
    pub is_derived: bool,
    pub specializes: Seq<Seq<char>>,
    pub specialized_features: Seq<Seq<char>>,
    pub subsetted_features: Seq<Seq<char>>,
    pub redefined_features: Seq<Seq<char>>,
    pub members: Seq<ResolvedUsageView>,
    pub modifiers: Seq<Seq<char>>,
    pub docs: Seq<Seq<char>>,
    pub span: SourceSpan,
}

// ---------------------------------------------------------------- single resolutions

/// The type `n` names in the scope `owner`; the outer `None` when that
/// resolution does not end.
pub open spec fn in_scope(t: TablesView, n: QualifiedNameView, owner: Seq<char>) -> Option<Option<Seq<char>>> {
    if scoped_ends(t, n, owner) {
        Some(scoped_value(t, n, owner))
    } else {
        None
    }
}

/// The feature `n`, written in `u`, names.
pub open spec fn feature_of(t: TablesView, u: CollectedUsageView, n: QualifiedNameView) -> Option<Option<Seq<char>>> {
    if feature_ref_ends(t, u, n) {
        Some(feature_ref_value(t, u, n))
    } else {
        None
    }
}

/// What the reference target `n` of `u` names.
pub open spec fn reference_of(t: TablesView, u: CollectedUsageView, n: QualifiedNameView) -> Option<Option<Seq<char>>> {
    if reference_target_ends(t, u, n) {
        Some(reference_target_value(t, u, n))
    } else {
        None
    }
}

/// The feature `u` redefines by `n`.
pub open spec fn redefinition_of(t: TablesView, u: CollectedUsageView, n: QualifiedNameView) -> Option<Option<Seq<char>>> {
    if redefinition_ends(t, u, n) {
        Some(redefinition_value(t, u, n))
    } else {
        None
    }
}

/// The type `n` names.
pub open spec fn type_of(t: TablesView, n: QualifiedNameView) -> Option<Option<Seq<char>>> {
    if type_ends(inherit_context(t), n) {
        Some(type_value(inherit_context(t), n))
    } else {
        None
    }
}

// ---------------------------------------------------------------- effective references

/// A usage named `ref` by default whose one redefinition stands for its
/// reference target, where its rule asks for that.
pub open spec fn implicit_reference(m: MappingView, u: CollectedUsageView) -> bool {
    &&& has_step(m, u.construct, "implicit-ref-redefines-target"@)
    &&& u.is_implicit_name
    &&& u.declared_name == "ref"@
    &&& u.ty is None
    &&& u.reference_target is None
    &&& u.redefines.len() == 1
}

/// The reference target a satisfy or verify usage's own name stands for,
/// where its rule asks for that.
pub open spec fn shorthand_target(m: MappingView, u: CollectedUsageView) -> Option<QualifiedNameView> {
    let rule = if u.construct == "SatisfyUsage"@ {
        Some("satisfy-name-as-reference-target"@)
    } else if u.construct == "VerifyUsage"@ {
        Some("verify-name-as-reference-target"@)
    } else {
        None
    };
    match rule {
        Some(id) => if has_step(m, u.construct, id) && u.reference_target is None && u.declared_name.len() > 0 {
            Some(QualifiedNameView { segments: seq![u.declared_name], span: u.span })
        } else {
            None
        },
        None => None,
    }
}

/// The reference target `u` is resolved with.
pub open spec fn effective_reference(m: MappingView, u: CollectedUsageView) -> Option<QualifiedNameView> {
    let r = if implicit_reference(m, u) {
        Some(u.redefines[0])
    } else {
        u.reference_target
    };
    if r is None {
        shorthand_target(m, u)
    } else {
        r
    }
}

/// The redefinitions `u` is resolved with.
pub open spec fn effective_redefines(m: MappingView, u: CollectedUsageView) -> Seq<QualifiedNameView> {
    if implicit_reference(m, u) {
        Seq::empty()
    } else {
        u.redefines
    }
}

// ---------------------------------------------------------------- the steps

/// The type of `u` and the features its type names instead: a type in
/// scope, else a feature, else unresolved.
#[verifier::opaque]
pub open spec fn type_step(t: TablesView, u: CollectedUsageView, p: ResolvePolicy) -> Option<
    Result<(Option<Seq<char>>, Seq<Seq<char>>), Failure>,
> {
    match u.ty {
        None => Some(Ok((None, Seq::empty()))),
        Some(n) => match in_scope(t, n, u.owner_qualified_name) {
            None => None,
            Some(Some(x)) => Some(Ok((Some(x), Seq::empty()))),
            Some(None) => match feature_of(t, u, n) {
                None => None,
                Some(Some(f)) => Some(Ok((None, seq![f]))),
                Some(None) => match unresolved(None, n, "type"@, p) {
                    Ok(x) => Some(Ok((Some(x), Seq::empty()))),
                    Err(e) => Some(Err(e)),
                },
            },
        },
    }
}

/// The reference target policy of `construct`.
pub open spec fn reference_policy(m: MappingView, construct: Seq<char>) -> Option<Seq<char>> {
    match lookup(m.semantic_defaults.usage_resolution_policies@, construct) {
        Some(p) => opt_string_view(p.reference_target_policy),
        None => None,
    }
}

/// A type in scope, else a reference target.
pub open spec fn type_then_reference(t: TablesView, u: CollectedUsageView, n: QualifiedNameView) -> Option<Option<Seq<char>>> {
    match in_scope(t, n, u.owner_qualified_name) {
        None => None,
        Some(Some(x)) => Some(Some(x)),
        Some(None) => reference_of(t, u, n),
    }
}

/// The reference target of `u`, by its construct's policy.
pub open spec fn reference_step(t: TablesView, m: MappingView, u: CollectedUsageView) -> Option<
    Result<Option<Seq<char>>, Failure>,
> {
    match effective_reference(m, u) {
        None => Some(Ok(None)),
        Some(n) => {
            let pol = reference_policy(m, u.construct);
            let found = if pol == Some("annotation_target_then_type_then_reference"@) {
                match annotation_target(u, n, t.local_definitions, t.usages) {
                    Some(x) => Some(Some(x)),
                    None => type_then_reference(t, u, n),
                }
            } else if pol == Some("type_then_reference"@) {
                type_then_reference(t, u, n)
            } else {
                reference_of(t, u, n)
            };
            match found {
                None => None,
                Some(Some(x)) => Some(Ok(Some(x))),
                Some(None) => Some(Err(failure("reference target"@, n))),
            }
        },
    }
}

/// An allocation endpoint: a type first for a target, a reference target
/// first for a source.
pub open spec fn endpoint(t: TablesView, u: CollectedUsageView, n: QualifiedNameView, prefer_type: bool) -> Option<
    Option<Seq<char>>,
> {
    if prefer_type {
        type_then_reference(t, u, n)
    } else {
        match reference_of(t, u, n) {
            None => None,
            Some(Some(x)) => Some(Some(x)),
            Some(None) => in_scope(t, n, u.owner_qualified_name),
        }
    }
}

/// The allocation endpoint `n` of `u`, if it has one.
pub open spec fn allocation_step(
    t: TablesView,
    u: CollectedUsageView,
    n: Option<QualifiedNameView>,
    prefer_type: bool,
    kind: Seq<char>,
) -> Option<Result<Option<Seq<char>>, Failure>> {
    match n {
        None => Some(Ok(None)),
        Some(n) => match endpoint(t, u, n, prefer_type) {
            None => None,
            Some(Some(x)) => Some(Ok(Some(x))),
            Some(None) => Some(Err(failure(kind, n))),
        },
    }
}

/// The additional types of `u` from the `i`-th on.
pub open spec fn additional_types_step(t: TablesView, u: CollectedUsageView, p: ResolvePolicy, i: int) -> Option<
    Result<Seq<Seq<char>>, Failure>,
>
    decreases u.additional_types.len() - i,
{
    if i < 0 || i >= u.additional_types.len() {
        Some(Ok(Seq::empty()))
    } else {
        let n = u.additional_types[i];
        match in_scope(t, n, u.owner_qualified_name) {
            None => None,
            Some(found) => match unresolved(found, n, "type"@, p) {
                Err(e) => Some(Err(e)),
                Ok(x) => match additional_types_step(t, u, p, i + 1) {
                    None => None,
                    Some(Err(e)) => Some(Err(e)),
                    Some(Ok(rest)) => Some(Ok(seq![x] + rest)),
                },
            },
        }
    }
}

/// `n` names `u` itself.
pub open spec fn self_reference(u: CollectedUsageView, n: QualifiedNameView) -> bool {
    join_dot(n.segments) == u.declared_name || join_dot(n.segments) == u.qualified_name
}

/// The specializations of `u` from the `i`-th on, added to the types `ts`
/// and the features `fs` it specializes: a feature, `u` itself, a type in
/// scope, else unresolved.
#[verifier::opaque]
pub open spec fn specializes_step(
    t: TablesView,
    u: CollectedUsageView,
    p: ResolvePolicy,
    i: int,
    ts: Seq<Seq<char>>,
    fs: Seq<Seq<char>>,
) -> Option<Result<(Seq<Seq<char>>, Seq<Seq<char>>), Failure>>
    decreases u.specializes.len() - i,
{
    if i < 0 || i >= u.specializes.len() {
        Some(Ok((ts, fs)))
    } else {
        let n = u.specializes[i];
        match feature_of(t, u, n) {
            None => None,
            Some(Some(f)) => specializes_step(t, u, p, i + 1, ts, fs.push(f)),
            Some(None) => if self_reference(u, n) {
                specializes_step(t, u, p, i + 1, ts, fs.push("feature."@ + u.qualified_name))
            } else {
                match in_scope(t, n, u.owner_qualified_name) {
                    None => None,
                    Some(Some(x)) => specializes_step(t, u, p, i + 1, ts.push(x), fs),
                    Some(None) => match unresolved(None, n, "specialization"@, p) {
                        Err(e) => Some(Err(e)),
                        Ok(x) => specializes_step(t, u, p, i + 1, ts.push(x), fs),
                    },
                }
            },
        }
    }
}

/// The subsettings of `u` from the `i`-th on.
pub open spec fn subsets_step(t: TablesView, u: CollectedUsageView, p: ResolvePolicy, i: int) -> Option<
    Result<Seq<Seq<char>>, Failure>,
>
    decreases u.subsets.len() - i,
{
    if i < 0 || i >= u.subsets.len() {
        Some(Ok(Seq::empty()))
    } else {
        let n = u.subsets[i];
        match feature_of(t, u, n) {
            None => None,
            Some(found) => match unresolved(found, n, "subset target"@, p) {
                Err(e) => Some(Err(e)),
                Ok(x) => match subsets_step(t, u, p, i + 1) {
                    None => None,
                    Some(Err(e)) => Some(Err(e)),
                    Some(Ok(rest)) => Some(Ok(seq![x] + rest)),
                },
            },
        }
    }
}

/// The redefinitions `rs` of `u` from the `i`-th on: a redefined feature,
/// else for a simple name the one modifier alias.
pub open spec fn redefines_step(
    t: TablesView,
    u: CollectedUsageView,
    p: ResolvePolicy,
    rs: Seq<QualifiedNameView>,
    i: int,
) -> Option<Result<Seq<Seq<char>>, Failure>>
    decreases rs.len() - i,
{
    if i < 0 || i >= rs.len() {
        Some(Ok(Seq::empty()))
    } else {
        let n = rs[i];
        match redefinition_of(t, u, n) {
            None => None,
            Some(found) => {
                let found2 = if found is Some {
                    found
                } else if n.segments.len() == 1 {
                    match unique(modifier_alias_matches(t.usages, n.segments[0], u.qualified_name)) {
                        Some(l) => Some("feature."@ + l),
                        None => None,
                    }
                } else {
                    None
                };
                match unresolved(found2, n, "redefinition target"@, p) {
                    Err(e) => Some(Err(e)),
                    Ok(x) => match redefines_step(t, u, p, rs, i + 1) {
                        None => None,
                        Some(Err(e)) => Some(Err(e)),
                        Some(Ok(rest)) => Some(Ok(seq![x] + rest)),
                    },
                }
            },
        }
    }
}

/// The connection-end specialization policy of `construct` and the parent
/// construct it names.
pub open spec fn connection_policy(m: MappingView, construct: Seq<char>) -> Option<(Seq<char>, Option<Seq<char>>)> {
    match lookup(m.semantic_defaults.usage_resolution_policies@, construct) {
        Some(p) => match p.connection_end_specialization_policy {
            Some(pol) => Some((pol@, opt_string_view(p.connection_end_parent_construct))),
            None => None,
        },
        None => None,
    }
}

/// The qualified name of the first of `ms`, from the `i`-th on, declared
/// as `name`.
pub open spec fn first_member_named(ms: Seq<CollectedUsageView>, name: Seq<char>, i: int) -> Option<Seq<char>>
    decreases ms.len() - i,
{
    if i < 0 || i >= ms.len() {
        None
    } else if ms[i].declared_name == name {
        Some(ms[i].qualified_name)
    } else {
        first_member_named(ms, name, i + 1)
    }
}

/// The member of the parent connection's type that an end `u` stands
/// for, where the parent has the construct `parent` asks for.
pub open spec fn connection_end_feature(t: TablesView, u: CollectedUsageView, parent: Option<Seq<char>>) -> Option<
    Option<Seq<char>>,
> {
    match usage_lookup(t.usages, u.owner_qualified_name) {
        None => Some(None),
        Some(pu) => if parent is Some && pu.construct != parent->Some_0 {
            Some(None)
        } else {
            match pu.ty {
                None => Some(None),
                Some(tn) => match type_of(t, tn) {
                    None => None,
                    Some(None) => Some(None),
                    Some(Some(tid)) => if !is_prefix("type."@, tid) {
                        Some(None)
                    } else {
                        match definition_lookup(t.definition_index, tid.skip(5)) {
                            None => Some(None),
                            Some(d) => match first_member_named(d.members, u.declared_name, 0) {
                                Some(q) => Some(Some("feature."@ + q)),
                                None => Some(None),
                            },
                        }
                    },
                },
            }
        },
    }
}

/// The features `fs` a connection end specializes and its type `ty`, with
/// the parent connection's member and the reference target's type added
/// where the construct's policy asks for them.
pub open spec fn connection_step(
    t: TablesView,
    m: MappingView,
    u: CollectedUsageView,
    reference: Option<Seq<char>>,
    ty: Option<Seq<char>>,
    fs: Seq<Seq<char>>,
) -> Option<(Option<Seq<char>>, Seq<Seq<char>>)> {
    match connection_policy(m, u.construct) {
        Some(c) => if c.0 == "from_parent_connection_type_member"@ {
            match connection_end_feature(t, u, c.1) {
                None => None,
                Some(found) => {
                    let fs2 = match found {
                        Some(f) => fs.push(f),
                        None => fs,
                    };
                    if ty is None {
                        match reference {
                            None => Some((None, fs2)),
                            Some(x) => match feature_type(t, x) {
                                None => None,
                                Some(tt) => Some((tt, fs2)),
                            },
                        }
                    } else {
                        Some((ty, fs2))
                    }
                },
            }
        } else {
            Some((ty, fs))
        },
        None => Some((ty, fs)),
    }
}

/// The type of the first of the features `ids`, from the `i`-th on, that
/// has one: its own type, else the type its usage is found to have.
pub open spec fn inferred_type(t: TablesView, u: CollectedUsageView, ids: Seq<Seq<char>>, i: int) -> Option<
    Option<Seq<char>>,
>
    decreases ids.len() - i,
{
    if i < 0 || i >= ids.len() {
        Some(None)
    } else {
        let id = ids[i];
        let next = inferred_type(t, u, ids, i + 1);
        if !is_prefix("feature."@, id) {
            next
        } else {
            match usage_lookup(t.usages, id.skip(8)) {
                None => next,
                Some(tu) => match tu.ty {
                    Some(ty) => match type_of(t, ty) {
                        None => None,
                        Some(Some(x)) => Some(Some(x)),
                        Some(None) => next,
                    },
                    None => if !typed_through_ends(t, tu, u.qualified_name) {
                        None
                    } else {
                        match typed_through_value(t, tu, u.qualified_name) {
                            Some(x) => Some(Some("type."@ + x)),
                            None => next,
                        }
                    },
                },
            }
        }
    }
}

/// The type of `u`: the one found so far, else one inferred from the
/// features it redefines, subsets and specializes, else the definition
/// named like it.
pub open spec fn final_type(
    t: TablesView,
    u: CollectedUsageView,
    ty: Option<Seq<char>>,
    redefined: Seq<Seq<char>>,
    subsetted: Seq<Seq<char>>,
    specialized: Seq<Seq<char>>,
) -> Option<Option<Seq<char>>> {
    if ty is Some {
        Some(ty)
    } else {
        match inferred_type(t, u, redefined + subsetted + specialized, 0) {
            None => None,
            Some(Some(x)) => Some(Some(x)),
            Some(None) => Some(named_definition_type(u, t.local_definitions)),
        }
    }
}

// ---------------------------------------------------------------- the usage

/// What a usage resolves to, apart from its members.
pub struct UsageHead {
    pub type_ref: Option<Seq<char>>,
    pub additional_type_refs: Seq<Seq<char>>,
    pub reference_target: Option<Seq<char>>,
    pub allocation_source: Option<Seq<char>>,
    pub allocation_target: Option<Seq<char>>,
    pub specializes: Seq<Seq<char>>,
    pub specialized_features: Seq<Seq<char>>,
    pub subsetted_features: Seq<Seq<char>>,
    pub redefined_features: Seq<Seq<char>>,
}

/// The references of `u` after its type, reference target and
/// allocation endpoints: the rest of the steps, in order.
#[verifier::opaque]
pub open spec fn usage_tail(
    t: TablesView,
    m: MappingView,
    p: ResolvePolicy,
    u: CollectedUsageView,
    ty: Option<Seq<char>>,
    fs: Seq<Seq<char>>,
    reference: Option<Seq<char>>,
    source: Option<Seq<char>>,
    target: Option<Seq<char>>,
) -> Option<Result<UsageHead, Failure>> {
    match additional_types_step(t, u, p, 0) {
        None => None,
        Some(Err(e)) => Some(Err(e)),
        Some(Ok(additional)) => match specializes_step(t, u, p, 0, Seq::empty(), fs) {
            None => None,
            Some(Err(e)) => Some(Err(e)),
            Some(Ok(sp)) => match subsets_step(t, u, p, 0) {
                None => None,
                Some(Err(e)) => Some(Err(e)),
                Some(Ok(subsetted)) => match redefines_step(t, u, p, effective_redefines(m, u), 0) {
                    None => None,
                    Some(Err(e)) => Some(Err(e)),
                    Some(Ok(redefined)) => match connection_step(t, m, u, reference, ty, sp.1) {
                        None => None,
                        Some(c) => match final_type(t, u, c.0, redefined, subsetted, c.1) {
                            None => None,
                            Some(final_ty) => Some(
                                Ok(
                                    UsageHead {
                                        type_ref: final_ty,
                                        additional_type_refs: additional,
                                        reference_target: reference,
                                        allocation_source: source,
                                        allocation_target: target,
                                        specializes: sp.0,
                                        specialized_features: c.1,
                                        subsetted_features: subsetted,
                                        redefined_features: redefined,
                                    },
                                ),
                            ),
                        },
                    },
                },
            },
        },
    }
}

/// What `u` resolves to, apart from its members.
pub open spec fn usage_head(t: TablesView, m: MappingView, p: ResolvePolicy, u: CollectedUsageView) -> Option<
    Result<UsageHead, Failure>,
> {
    match type_step(t, u, p) {
        None => None,
        Some(Err(e)) => Some(Err(e)),
        Some(Ok(typed)) => match reference_step(t, m, u) {
            None => None,
            Some(Err(e)) => Some(Err(e)),
            Some(Ok(reference)) => match allocation_step(t, u, u.allocation_source, false, "allocation source"@) {
                None => None,
                Some(Err(e)) => Some(Err(e)),
                Some(Ok(source)) => match allocation_step(t, u, u.allocation_target, true, "allocation target"@) {
                    None => None,
                    Some(Err(e)) => Some(Err(e)),
                    Some(Ok(target)) => usage_tail(t, m, p, u, typed.0, typed.1, reference, source, target),
                },
            },
        },
    }
}

/// A resolved usage built from `u`, its resolved references and members.
pub open spec fn assembled(u: CollectedUsageView, h: UsageHead, members: Seq<ResolvedUsageView>) -> ResolvedUsageView {
    ResolvedUsageView {
        construct: u.construct,
        owner_construct: u.owner_construct,
        owner_qualified_name: u.owner_qualified_name,
        qualified_name: u.qualified_name,
        declared_name: u.declared_name,
        is_implicit_name: u.is_implicit_name,
        has_explicit_type: u.ty is Some || u.additional_types.len() > 0,
        type_ref: h.type_ref,
        additional_type_refs: h.additional_type_refs,
        reference_target: h.reference_target,
        allocation_source: h.allocation_source,
        allocation_target: h.allocation_target,
        metadata_properties: u.metadata_properties,
        multiplicity: u.multiplicity,
        has_expression: false,
        is_derived: u.modifiers.contains("derived"@),
        specializes: h.specializes,
        specialized_features: h.specialized_features,
        subsetted_features: h.subsetted_features,
        redefined_features: h.redefined_features,
        members,
        modifiers: u.modifiers,
        docs: u.docs,
        span: u.span,
    }
}

/// What usage `u` resolves to, members included.
pub open spec fn resolved_usage(t: TablesView, m: MappingView, p: ResolvePolicy, u: CollectedUsageView) -> Option<
    Result<ResolvedUsageView, Failure>,
>
    decreases u, 1int,
{
    match usage_head(t, m, p, u) {
        None => None,
        Some(Err(e)) => Some(Err(e)),
        Some(Ok(h)) => match resolved_members(t, m, p, u.members) {
            None => None,
            Some(Err(e)) => Some(Err(e)),
            Some(Ok(ms)) => Some(Ok(assembled(u, h, ms))),
        },
    }
}

/// What usages `s` resolve to, in order; the first failure fails them.
pub open spec fn resolved_members(t: TablesView, m: MappingView, p: ResolvePolicy, s: Seq<CollectedUsageView>) -> Option<
    Result<Seq<ResolvedUsageView>, Failure>,
>
    decreases s, 0int,
{
    if s.len() == 0 {
        Some(Ok(Seq::empty()))
    } else {
        match resolved_members(t, m, p, s.drop_last()) {
            None => None,
            Some(Err(e)) => Some(Err(e)),
            Some(Ok(v)) => match resolved_usage(t, m, p, s.last()) {
                None => None,
                Some(Err(e)) => Some(Err(e)),
                Some(Ok(x)) => Some(Ok(v.push(x))),
            },
        }
    }
}

/// The view of a resolved usage.
pub open spec fn rusage_view(u: ResolvedUsage) -> ResolvedUsageView
    decreases u, 1int,
{
    ResolvedUsageView {
        construct: u.construct@,
        owner_construct: u.owner_construct@,
        owner_qualified_name: u.owner_qualified_name@,
        qualified_name: u.qualified_name@,
        declared_name: u.declared_name@,
        is_implicit_name: u.is_implicit_name,
        has_explicit_type: u.has_explicit_type,
        type_ref: opt_string_view(u.type_ref),
        additional_type_refs: strings_view(u.additional_type_refs@),
        reference_target: opt_string_view(u.reference_target),
        allocation_source: opt_string_view(u.allocation_source),
        allocation_target: opt_string_view(u.allocation_target),
        metadata_properties: u.metadata_properties@,
        multiplicity: opt_multiplicity_view(u.multiplicity),
        has_expression: u.expression is Some,
        is_derived: u.is_derived,
        specializes: strings_view(u.specializes@),
        specialized_features: strings_view(u.specialized_features@),
        subsetted_features: strings_view(u.subsetted_features@),
        redefined_features: strings_view(u.redefined_features@),
        members: rusages_view(u.members@),
        modifiers: strings_view(u.modifiers@),
        docs: strings_view(u.docs@),
        span: u.span,
    }
}

/// The views of a list of resolved usages.
pub open spec fn rusages_view(s: Seq<ResolvedUsage>) -> Seq<ResolvedUsageView>
    decreases s, 0int,
{
    if s.len() == 0 {
        Seq::empty()
    } else {
        rusages_view(s.drop_last()).push(rusage_view(s.last()))
    }
}

// ---------------------------------------------------------------- resolution

/// `d` reports the failure `e`.
pub open spec fn reports(d: Diagnostic, e: Failure) -> bool {
    d.message@ == e.message && d.span == Some(e.span)
}

/// Whether `usage` is a `ref` by default whose one redefinition stands for
/// its reference target, as its rule asks.
pub fn should_use_implicit_reference_redefinition_target(mappings: &MappingBundle, usage: &CollectedUsage) -> (r: bool)
    ensures
        r == implicit_reference(mappings@, usage@),
{
    has_elaboration_rule(mappings, usage.construct.as_str(), "implicit-ref-redefines-target") && usage.is_implicit_name
        && str_eq(usage.declared_name.as_str(), "ref") && usage.ty.is_none() && usage.reference_target.is_none()
        && usage.redefines.len() == 1
}

/// The reference target that a satisfy or verify usage's own name stands
/// for, as its rule asks.
pub fn shorthand_reference_target(mappings: &MappingBundle, usage: &CollectedUsage) -> (r: Option<QualifiedName>)
    ensures
        match r {
            Some(q) => shorthand_target(mappings@, usage@) == Some(q@),
            None => shorthand_target(mappings@, usage@) is None,
        },
{
    let rule_id = if str_eq(usage.construct.as_str(), "SatisfyUsage") {
        "satisfy-name-as-reference-target"
    } else if str_eq(usage.construct.as_str(), "VerifyUsage") {
        "verify-name-as-reference-target"
    } else {
        return None;
    };
    if has_elaboration_rule(mappings, usage.construct.as_str(), rule_id) && usage.reference_target.is_none()
        && usage.declared_name.unicode_len() > 0 {
        let q = QualifiedName { segments: vec![usage.declared_name.clone()], span: usage.span };
        assert(strings_view(q.segments@) =~= seq![usage@.declared_name]);
        return Some(q);
    }
    None
}

/// The message for an unresolved reference of `kind` written as `name`.
fn unresolved_message(kind: &str, name: &QualifiedName) -> (r: String)
    ensures
        r@ == failure(kind@, name@).message,
{
    let head = concat3("unresolved ", kind, " `");
    concat3(head.as_str(), name.as_colon_string().as_str(), "`")
}

/// The resolved id, else the reference as written where `policy` keeps
/// it, else the error that it did not resolve.
pub fn unresolved_or_error(
    resolved: Option<String>,
    name: &QualifiedName,
    reference_kind: &str,
    policy: ResolvePolicy,
) -> (r: Result<String, Diagnostic>)
    ensures
        match unresolved(opt_str_view(resolved), name@, reference_kind@, policy) {
            Ok(x) => r matches Ok(s) && s@ == x,
            Err(e) => r matches Err(d) && reports(d, e),
        },
{
    match resolved {
        Some(x) => {
            return Ok(x);
        },
        None => {},
    }
    if policy.preserve_unresolved_references {
        return Ok(name.as_colon_string());
    }
    let message = unresolved_message(reference_kind, name);
    Err(Diagnostic::new(message.as_str(), Some(name.span)))
}

/// The type `name` names in the scope `owner`.
fn type_in_scope(t: &Tables, name: &QualifiedName, owner: &str) -> (r: Option<String>)
    requires
        scoped_ends(t@, name@, owner@),
    ensures
        opt_str_view(r) == scoped_value(t@, name@, owner@),
{
    resolve_type_reference_in_scope(
        name,
        owner,
        t.stdlib_ids,
        t.stdlib_aliases,
        t.local_definitions,
        t.local_aliases,
        t.import_aliases,
    )
}

/// The type `name` names.
fn type_by_name(t: &Tables, name: &QualifiedName) -> (r: Option<String>)
    requires
        type_ends(inherit_context(t@), name@),
    ensures
        opt_str_view(r) == type_value(inherit_context(t@), name@),
{
    resolve_type_reference(name, t.stdlib_ids, t.stdlib_aliases, t.local_definitions, t.local_aliases, t.import_aliases)
}

/// A type in scope, else a reference target.
fn resolve_type_then_reference(t: &Tables, usage: &CollectedUsage, name: &QualifiedName) -> (r: Option<String>)
    requires
        specializations_end(inherit_context(t@)),
        type_then_reference(t@, usage@, name@) is Some,
    ensures
        type_then_reference(t@, usage@, name@) == Some(opt_str_view(r)),
{
    match type_in_scope(t, name, usage.owner_qualified_name.as_str()) {
        Some(x) => Some(x),
        None => resolve_reference_usage_target(t, usage, name),
    }
}

/// The allocation endpoint `name` of `usage`: a type first for a target
/// (`prefer_type`), a reference target first for a source.
pub fn resolve_allocation_endpoint(t: &Tables, usage: &CollectedUsage, name: &QualifiedName, prefer_type: bool) -> (r:
    Option<String>)
    requires
        specializations_end(inherit_context(t@)),
        endpoint(t@, usage@, name@, prefer_type) is Some,
    ensures
        endpoint(t@, usage@, name@, prefer_type) == Some(opt_str_view(r)),
{
    if prefer_type {
        resolve_type_then_reference(t, usage, name)
    } else {
        match resolve_reference_usage_target(t, usage, name) {
            Some(x) => Some(x),
            None => type_in_scope(t, name, usage.owner_qualified_name.as_str()),
        }
    }
}

/// The type of `usage` and the features its type names instead.
fn resolve_type_step(t: &Tables, usage: &CollectedUsage, policy: ResolvePolicy) -> (r: Result<(Option<String>, Vec<String>), Diagnostic>)
    requires
        specializations_end(inherit_context(t@)),
        type_step(t@, usage@, policy) is Some,
    ensures
        match type_step(t@, usage@, policy)->Some_0 {
            Ok(x) => r matches Ok(v) && opt_str_view(v.0) == x.0 && strings_view(v.1@) == x.1,
            Err(e) => r matches Err(d) && reports(d, e),
        },
{
    proof {
        reveal(type_step);
    }
    match &usage.ty {
        None => {
            let v: Vec<String> = Vec::new();
            assert(strings_view(v@) =~= Seq::<Seq<char>>::empty());
            Ok((None, v))
        },
        Some(name) => {
            let empty: Vec<String> = Vec::new();
            assert(strings_view(empty@) =~= Seq::<Seq<char>>::empty());
            match type_in_scope(t, name, usage.owner_qualified_name.as_str()) {
                Some(x) => {
                    return Ok((Some(x), empty));
                },
                None => {},
            }
            match resolve_feature_reference(t, usage, name) {
                Some(f) => {
                    let v = vec![f];
                    assert(strings_view(v@) =~= seq![v@[0]@]);
                    return Ok((None, v));
                },
                None => {},
            }
            match unresolved_or_error(None, name, "type", policy) {
                Ok(x) => Ok((Some(x), empty)),
                Err(e) => Err(e),
            }
        },
    }
}

/// The reference target of `usage`, resolved as written `reference`, by
/// its construct's policy.
fn resolve_reference_step(
    t: &Tables,
    mappings: &MappingBundle,
    usage: &CollectedUsage,
    reference: &Option<QualifiedName>,
) -> (r: Result<Option<String>, Diagnostic>)
    requires
        specializations_end(inherit_context(t@)),
        opt_name_view(*reference) == effective_reference(mappings@, usage@),
        reference_step(t@, mappings@, usage@) is Some,
    ensures
        match reference_step(t@, mappings@, usage@)->Some_0 {
            Ok(x) => r matches Ok(v) && opt_str_view(v) == x,
            Err(e) => r matches Err(d) && reports(d, e),
        },
{
    let name = match reference {
        None => {
            return Ok(None);
        },
        Some(n) => n,
    };
    let policy = mappings.usage_reference_target_resolution_policy(usage.construct.as_str());
    let annotation_first = match policy {
        Some(p) => str_eq(p, "annotation_target_then_type_then_reference"),
        None => false,
    };
    let type_first = match policy {
        Some(p) => str_eq(p, "type_then_reference"),
        None => false,
    };
    let found = if annotation_first {
        match resolve_comment_annotation_target(usage, name, t.local_definitions, t.local_usage_map) {
            Some(x) => Some(x),
            None => resolve_type_then_reference(t, usage, name),
        }
    } else if type_first {
        resolve_type_then_reference(t, usage, name)
    } else {
        resolve_reference_usage_target(t, usage, name)
    };
    match found {
        Some(x) => Ok(Some(x)),
        None => {
            let message = unresolved_message("reference target", name);
            Err(Diagnostic::new(message.as_str(), Some(name.span)))
        },
    }
}

/// The allocation endpoint `name` of `usage`, if it has one.
fn resolve_allocation_step(
    t: &Tables,
    usage: &CollectedUsage,
    name: &Option<QualifiedName>,
    prefer_type: bool,
    kind: &str,
) -> (r: Result<Option<String>, Diagnostic>)
    requires
        specializations_end(inherit_context(t@)),
        allocation_step(t@, usage@, opt_name_view(*name), prefer_type, kind@) is Some,
    ensures
        match allocation_step(t@, usage@, opt_name_view(*name), prefer_type, kind@)->Some_0 {
            Ok(x) => r matches Ok(v) && opt_str_view(v) == x,
            Err(e) => r matches Err(d) && reports(d, e),
        },
{
    match name {
        None => Ok(None),
        Some(n) => match resolve_allocation_endpoint(t, usage, n, prefer_type) {
            Some(x) => Ok(Some(x)),
            None => {
                let message = unresolved_message(kind, n);
                Err(Diagnostic::new(message.as_str(), Some(n.span)))
            },
        },
    }
}

/// `done` followed by what `rest` resolves to.
pub open spec fn after(done: Seq<Seq<char>>, rest: Option<Result<Seq<Seq<char>>, Failure>>) -> Option<
    Result<Seq<Seq<char>>, Failure>,
> {
    match rest {
        Some(Ok(r)) => Some(Ok(done + r)),
        other => other,
    }
}

/// The additional types of `usage`, in order.
fn resolve_additional_types(t: &Tables, usage: &CollectedUsage, policy: ResolvePolicy) -> (r: Result<Vec<String>, Diagnostic>)
    requires
        additional_types_step(t@, usage@, policy, 0) is Some,
    ensures
        match additional_types_step(t@, usage@, policy, 0)->Some_0 {
            Ok(x) => r matches Ok(v) && strings_view(v@) == x,
            Err(e) => r matches Err(d) && reports(d, e),
        },
{
    let mut done: Vec<String> = Vec::new();
    let n = usage.additional_types.len();
    let mut i: usize = 0;
    assert(strings_view(done@) + Seq::<Seq<char>>::empty() =~= Seq::<Seq<char>>::empty());
    while i < n
        invariant
            n == usage@.additional_types.len(),
            i <= n,
            additional_types_step(t@, usage@, policy, 0) is Some,
            additional_types_step(t@, usage@, policy, 0) == after(
                strings_view(done@),
                additional_types_step(t@, usage@, policy, i as int),
            ),
        decreases n - i,
    {
        let name = &usage.additional_types[i];
        let found = type_in_scope(t, name, usage.owner_qualified_name.as_str());
        match unresolved_or_error(found, name, "type", policy) {
            Ok(x) => {
                let ghost before = strings_view(done@);
                done.push(x);
                proof {
                    assert(strings_view(done@) =~= before.push(x@));
                    match additional_types_step(t@, usage@, policy, i + 1) {
                        Some(Ok(rest)) => {
                            assert(before + (seq![x@] + rest) =~= before.push(x@) + rest);
                        },
                        _ => {},
                    }
                }
            },
            Err(e) => {
                return Err(e);
            },
        }
        i = i + 1;
    }
    assert(strings_view(done@) + Seq::<Seq<char>>::empty() =~= strings_view(done@));
    Ok(done)
}

/// The specializations of `usage`: the types it specializes, and the
/// features `features` extended with those it specializes.
/// One specialization `name`, the `i`-th of `usage`: a feature it
/// specializes, itself, or a type.
fn resolve_specialization(
    t: &Tables,
    usage: &CollectedUsage,
    policy: ResolvePolicy,
    name: &QualifiedName,
    Ghost(i): Ghost<int>,
    types: &mut Vec<String>,
    features: &mut Vec<String>,
) -> (r: Result<(), Diagnostic>)
    requires
        specializations_end(inherit_context(t@)),
        0 <= i < usage@.specializes.len(),
        name@ == usage@.specializes[i],
        specializes_step(t@, usage@, policy, i, strings_view(old(types)@), strings_view(old(features)@)) is Some,
    ensures
        r is Ok ==> specializes_step(t@, usage@, policy, i, strings_view(old(types)@), strings_view(old(features)@))
            == specializes_step(t@, usage@, policy, i + 1, strings_view(final(types)@), strings_view(final(features)@)),
        match r {
            Ok(_) => true,
            Err(d) => match specializes_step(
                t@,
                usage@,
                policy,
                i,
                strings_view(old(types)@),
                strings_view(old(features)@),
            ) {
                Some(Err(e)) => reports(d, e),
                _ => false,
            },
        },
{
    let ghost ts = strings_view(types@);
    let ghost fs = strings_view(features@);
    proof {
        reveal(specializes_step);
    }
    match resolve_feature_reference(t, usage, name) {
        Some(f) => {
            features.push(f);
            assert(strings_view(features@) =~= fs.push(f@));
            return Ok(());
        },
        None => {},
    }
    if is_self_feature_reference(usage, name) {
        features.push(feature_id_from_qualified_name(usage.qualified_name.as_str()));
        assert(strings_view(features@) =~= fs.push("feature."@ + usage@.qualified_name));
        return Ok(());
    }
    let found = match type_in_scope(t, name, usage.owner_qualified_name.as_str()) {
        Some(x) => x,
        None => match unresolved_or_error(None, name, "specialization", policy) {
            Ok(x) => x,
            Err(e) => {
                return Err(e);
            },
        },
    };
    types.push(found);
    assert(strings_view(types@) =~= ts.push(found@));
    Ok(())
}

/// The specializations of `usage`: the types it specializes, and the
/// features `features` extended with those it specializes.
fn resolve_specializations(
    t: &Tables,
    usage: &CollectedUsage,
    policy: ResolvePolicy,
    initial_features: Vec<String>,
) -> (r: Result<(Vec<String>, Vec<String>), Diagnostic>)
    requires
        specializations_end(inherit_context(t@)),
        specializes_step(t@, usage@, policy, 0, Seq::empty(), strings_view(initial_features@)) is Some,
    ensures
        match specializes_step(t@, usage@, policy, 0, Seq::empty(), strings_view(initial_features@))->Some_0 {
            Ok(x) => r matches Ok(v) && strings_view(v.0@) == x.0 && strings_view(v.1@) == x.1,
            Err(e) => r matches Err(d) && reports(d, e),
        },
{
    let ghost start = specializes_step(t@, usage@, policy, 0, Seq::empty(), strings_view(initial_features@));
    let mut types: Vec<String> = Vec::new();
    let mut features = initial_features;
    let n = usage.specializes.len();
    let mut i: usize = 0;
    assert(strings_view(types@) =~= Seq::<Seq<char>>::empty());
    while i < n
        invariant
            n == usage@.specializes.len(),
            i <= n,
            specializations_end(inherit_context(t@)),
            start is Some,
            start == specializes_step(t@, usage@, policy, 0, Seq::empty(), strings_view(initial_features@)),
            start == specializes_step(t@, usage@, policy, i as int, strings_view(types@), strings_view(features@)),
        decreases n - i,
    {
        let ghost before = start;
        match resolve_specialization(t, usage, policy, &usage.specializes[i], Ghost(i as int), &mut types, &mut features) {
            Ok(()) => {},
            Err(e) => {
                assert(match before {
                    Some(Err(f)) => reports(e, f),
                    _ => false,
                });
                return Err(e);
            },
        }
        i = i + 1;
    }
    proof {
        reveal(specializes_step);
    }
    Ok((types, features))
}

/// The features `usage` subsets, in order.
fn resolve_subsettings(t: &Tables, usage: &CollectedUsage, policy: ResolvePolicy) -> (r: Result<Vec<String>, Diagnostic>)
    requires
        specializations_end(inherit_context(t@)),
        subsets_step(t@, usage@, policy, 0) is Some,
    ensures
        match subsets_step(t@, usage@, policy, 0)->Some_0 {
            Ok(x) => r matches Ok(v) && strings_view(v@) == x,
            Err(e) => r matches Err(d) && reports(d, e),
        },
{
    let mut done: Vec<String> = Vec::new();
    let n = usage.subsets.len();
    let mut i: usize = 0;
    assert(strings_view(done@) + Seq::<Seq<char>>::empty() =~= Seq::<Seq<char>>::empty());
    while i < n
        invariant
            n == usage@.subsets.len(),
            i <= n,
            specializations_end(inherit_context(t@)),
            subsets_step(t@, usage@, policy, 0) is Some,
            subsets_step(t@, usage@, policy, 0) == after(strings_view(done@), subsets_step(t@, usage@, policy, i as int)),
        decreases n - i,
    {
        let name = &usage.subsets[i];
        let found = resolve_feature_reference(t, usage, name);
        match unresolved_or_error(found, name, "subset target", policy) {
            Ok(x) => {
                let ghost before = strings_view(done@);
                done.push(x);
                proof {
                    assert(strings_view(done@) =~= before.push(x@));
                    match subsets_step(t@, usage@, policy, i + 1) {
                        Some(Ok(rest)) => {
                            assert(before + (seq![x@] + rest) =~= before.push(x@) + rest);
                        },
                        _ => {},
                    }
                }
            },
            Err(e) => {
                return Err(e);
            },
        }
        i = i + 1;
    }
    assert(strings_view(done@) + Seq::<Seq<char>>::empty() =~= strings_view(done@));
    Ok(done)
}

/// The features `usage` redefines by `redefines`, in order.
fn resolve_redefinitions(
    t: &Tables,
    usage: &CollectedUsage,
    policy: ResolvePolicy,
    redefines: &Vec<QualifiedName>,
) -> (r: Result<Vec<String>, Diagnostic>)
    requires
        specializations_end(inherit_context(t@)),
        redefines_step(t@, usage@, policy, names_view(redefines@), 0) is Some,
    ensures
        match redefines_step(t@, usage@, policy, names_view(redefines@), 0)->Some_0 {
            Ok(x) => r matches Ok(v) && strings_view(v@) == x,
            Err(e) => r matches Err(d) && reports(d, e),
        },
{
    let ghost rs = names_view(redefines@);
    let mut done: Vec<String> = Vec::new();
    let n = redefines.len();
    let mut i: usize = 0;
    assert(strings_view(done@) + Seq::<Seq<char>>::empty() =~= Seq::<Seq<char>>::empty());
    while i < n
        invariant
            n == rs.len(),
            rs == names_view(redefines@),
            i <= n,
            specializations_end(inherit_context(t@)),
            redefines_step(t@, usage@, policy, rs, 0) is Some,
            redefines_step(t@, usage@, policy, rs, 0) == after(
                strings_view(done@),
                redefines_step(t@, usage@, policy, rs, i as int),
            ),
        decreases n - i,
    {
        let name = &redefines[i];
        assert(name@ == rs[i as int]);
        let mut found = resolve_redefinition_feature_reference(t, usage, name);
        if found.is_none() && name.segments.len() == 1 {
            found = match unique_feature_modifier_alias_match_excluding(
                name.segments[0].as_str(),
                t.local_feature_index,
                t.local_usage_map,
                usage.qualified_name.as_str(),
            ) {
                Some(l) => Some(feature_id_from_qualified_name(l.as_str())),
                None => None,
            };
        }
        match unresolved_or_error(found, name, "redefinition target", policy) {
            Ok(x) => {
                let ghost before = strings_view(done@);
                done.push(x);
                proof {
                    assert(strings_view(done@) =~= before.push(x@));
                    match redefines_step(t@, usage@, policy, rs, i + 1) {
                        Some(Ok(rest)) => {
                            assert(before + (seq![x@] + rest) =~= before.push(x@) + rest);
                        },
                        _ => {},
                    }
                }
            },
            Err(e) => {
                return Err(e);
            },
        }
        i = i + 1;
    }
    assert(strings_view(done@) + Seq::<Seq<char>>::empty() =~= strings_view(done@));
    Ok(done)
}

/// The feature of the parent connection's type that the end `usage` stands
/// for, where the parent has the construct `parent_construct` names.
pub fn resolve_connection_end_specialization(t: &Tables, usage: &CollectedUsage, parent_construct: Option<&str>) -> (r:
    Option<String>)
    requires
        connection_end_feature(t@, usage@, opt_slice(parent_construct)) is Some,
    ensures
        connection_end_feature(t@, usage@, opt_slice(parent_construct)) == Some(opt_str_view(r)),
{
    proof {
        reveal_strlit("type.");
    }
    let parent_usage = match t.local_usage_map.get(usage.owner_qualified_name.as_str()) {
        Some(u) => u,
        None => {
            return None;
        },
    };
    match parent_construct {
        Some(c) => if !str_eq(parent_usage.construct.as_str(), c) {
            return None;
        },
        None => {},
    }
    let parent_type = match &parent_usage.ty {
        Some(n) => n,
        None => {
            return None;
        },
    };
    let type_id = match type_by_name(t, parent_type) {
        Some(x) => x,
        None => {
            return None;
        },
    };
    let definition_name = match strip_prefix_str(type_id.as_str(), "type.") {
        Some(x) => x,
        None => {
            return None;
        },
    };
    let definition = match t.definition_index.get(definition_name.as_str()) {
        Some(d) => d,
        None => {
            return None;
        },
    };
    let ghost ms = definition@.members;
    proof {
        lemma_cusages_view_index(definition.members@);
    }
    assert(ms.len() == definition.members@.len());
    assert(connection_end_feature(t@, usage@, opt_slice(parent_construct)) == match first_member_named(
        ms,
        usage@.declared_name,
        0,
    ) {
        Some(q) => Some(Some("feature."@ + q)),
        None => Some(None::<Seq<char>>),
    });
    let n = definition.members.len();
    let mut i: usize = 0;
    while i < n
        invariant
            n == ms.len(),
            ms == cusages_view(definition.members@),
            n == definition.members@.len(),
            connection_end_feature(t@, usage@, opt_slice(parent_construct)) == match first_member_named(
                ms,
                usage@.declared_name,
                0,
            ) {
                Some(q) => Some(Some("feature."@ + q)),
                None => Some(None::<Seq<char>>),
            },
            i <= n,
            first_member_named(ms, usage@.declared_name, 0) == first_member_named(ms, usage@.declared_name, i as int),
        decreases n - i,
    {
        proof {
            lemma_cusages_view_index(definition.members@);
        }
        assert(ms[i as int] == definition.members@[i as int]@);
        if str_eq(definition.members[i].declared_name.as_str(), usage.declared_name.as_str()) {
            assert(first_member_named(ms, usage@.declared_name, i as int) == Some(definition.members@[i as int]@.qualified_name));
            return Some(concat2("feature.", definition.members[i].qualified_name.as_str()));
        }
        i = i + 1;
    }
    None
}

/// The features a connection end specializes and its type, with the parent
/// connection's member and the reference target's type added where the
/// construct's policy asks for them.
fn resolve_connection_step(
    t: &Tables,
    mappings: &MappingBundle,
    usage: &CollectedUsage,
    reference: &Option<String>,
    ty: Option<String>,
    features: Vec<String>,
) -> (r: (Option<String>, Vec<String>))
    requires
        connection_step(t@, mappings@, usage@, opt_str_view(*reference), opt_str_view(ty), strings_view(features@)) is Some,
    ensures
        connection_step(t@, mappings@, usage@, opt_str_view(*reference), opt_str_view(ty), strings_view(features@))
            == Some((opt_str_view(r.0), strings_view(r.1@))),
{
    match mappings.usage_connection_end_specialization_policy(usage.construct.as_str()) {
        Some((policy, parent)) => if str_eq(policy, "from_parent_connection_type_member") {
            let mut features = features;
            let ghost fs = strings_view(features@);
            match resolve_connection_end_specialization(t, usage, parent) {
                Some(f) => {
                    features.push(f);
                    assert(strings_view(features@) =~= fs.push(f@));
                },
                None => {},
            }
            if ty.is_none() {
                match reference {
                    None => (None, features),
                    Some(x) => (infer_usage_type_from_feature_id(t, x.as_str()), features),
                }
            } else {
                (ty, features)
            }
        } else {
            (ty, features)
        },
        None => (ty, features),
    }
}

/// The type of the first of the features `ids` that has one: its own type,
/// else the type its usage is found to have without exploring `usage`.
pub fn inferred_type_from_features(t: &Tables, usage: &CollectedUsage, ids: &Vec<String>) -> (r: Option<String>)
    requires
        specializations_end(inherit_context(t@)),
        inferred_type(t@, usage@, strings_view(ids@), 0) is Some,
    ensures
        inferred_type(t@, usage@, strings_view(ids@), 0) == Some(opt_str_view(r)),
{
    proof {
        reveal_strlit("feature.");
    }
    let ghost s = strings_view(ids@);
    let n = ids.len();
    let mut i: usize = 0;
    while i < n
        invariant
            n == s.len(),
            s == strings_view(ids@),
            i <= n,
            specializations_end(inherit_context(t@)),
            inferred_type(t@, usage@, s, 0) is Some,
            inferred_type(t@, usage@, s, 0) == inferred_type(t@, usage@, s, i as int),
        decreases n - i,
    {
        proof {
            reveal_strlit("feature.");
        }
        assert(s[i as int] == ids@[i as int]@);
        let target = match strip_prefix_str(ids[i].as_str(), "feature.") {
            Some(x) => x,
            None => {
                i = i + 1;
                continue;
            },
        };
        let target_usage = match t.local_usage_map.get(target.as_str()) {
            Some(u) => u,
            None => {
                i = i + 1;
                continue;
            },
        };
        match &target_usage.ty {
            Some(ty) => match type_by_name(t, ty) {
                Some(x) => {
                    return Some(x);
                },
                None => {},
            },
            None => match resolve_usage_type_excluding(t, target_usage, usage.qualified_name.as_str()) {
                Some(q) => {
                    return Some(concat2("type.", q.as_str()));
                },
                None => {},
            },
        }
        i = i + 1;
    }
    None
}

/// `a`, `b` and `c` one after another.
fn concat_strings3(a: &Vec<String>, b: &Vec<String>, c: &Vec<String>) -> (r: Vec<String>)
    ensures
        strings_view(r@) == strings_view(a@) + strings_view(b@) + strings_view(c@),
{
    let ghost want = strings_view(a@) + strings_view(b@) + strings_view(c@);
    let mut r = clone_strings(a);
    let mut j: usize = 0;
    while j < b.len()
        invariant
            want == strings_view(a@) + strings_view(b@) + strings_view(c@),
            j <= b@.len(),
            r@.len() == a@.len() + j,
            forall|q: int| 0 <= q < r@.len() ==> #[trigger] r@[q]@ == want[q],
        decreases b@.len() - j,
    {
        let x = b[j].clone();
        r.push(x);
        j = j + 1;
    }
    let mut k: usize = 0;
    while k < c.len()
        invariant
            want == strings_view(a@) + strings_view(b@) + strings_view(c@),
            k <= c@.len(),
            r@.len() == a@.len() + b@.len() + k,
            forall|q: int| 0 <= q < r@.len() ==> #[trigger] r@[q]@ == want[q],
        decreases c@.len() - k,
    {
        let x = c[k].clone();
        r.push(x);
        k = k + 1;
    }
    assert(strings_view(r@) =~= want);
    r
}

/// The type of `usage`: `ty` if found, else one inferred from the features
/// it redefines, subsets and specializes, else the definition named like
/// it.
fn resolve_final_type(
    t: &Tables,
    usage: &CollectedUsage,
    ty: Option<String>,
    redefined: &Vec<String>,
    subsetted: &Vec<String>,
    specialized: &Vec<String>,
) -> (r: Option<String>)
    requires
        specializations_end(inherit_context(t@)),
        final_type(t@, usage@, opt_str_view(ty), strings_view(redefined@), strings_view(subsetted@), strings_view(specialized@))
            is Some,
    ensures
        final_type(t@, usage@, opt_str_view(ty), strings_view(redefined@), strings_view(subsetted@), strings_view(specialized@))
            == Some(opt_str_view(r)),
{
    if ty.is_some() {
        return ty;
    }
    let ids = concat_strings3(redefined, subsetted, specialized);
    match inferred_type_from_features(t, usage, &ids) {
        Some(x) => Some(x),
        None => infer_named_definition_type_ref(usage, t.local_definitions),
    }
}

// ---------------------------------------------------------------- the usage, executed

/// What a usage's references resolve to.
struct UsageRefs {
    type_ref: Option<String>,
    additional_type_refs: Vec<String>,
    reference_target: Option<String>,
    allocation_source: Option<String>,
    allocation_target: Option<String>,
    specializes: Vec<String>,
    specialized_features: Vec<String>,
    subsetted_features: Vec<String>,
    redefined_features: Vec<String>,
}

/// The view of what a usage's references resolve to.
spec fn refs_view(x: UsageRefs) -> UsageHead {
    UsageHead {
        type_ref: opt_str_view(x.type_ref),
        additional_type_refs: strings_view(x.additional_type_refs@),
        reference_target: opt_str_view(x.reference_target),
        allocation_source: opt_str_view(x.allocation_source),
        allocation_target: opt_str_view(x.allocation_target),
        specializes: strings_view(x.specializes@),
        specialized_features: strings_view(x.specialized_features@),
        subsetted_features: strings_view(x.subsetted_features@),
        redefined_features: strings_view(x.redefined_features@),
    }
}

/// The references of `usage` after its type, reference target and
/// allocation endpoints.
fn resolve_usage_tail(
    t: &Tables,
    mappings: &MappingBundle,
    policy: ResolvePolicy,
    usage: &CollectedUsage,
    redefines: &Vec<QualifiedName>,
    ty: Option<String>,
    features: Vec<String>,
    reference: Option<String>,
    source: Option<String>,
    target: Option<String>,
) -> (r: Result<UsageRefs, Diagnostic>)
    requires
        specializations_end(inherit_context(t@)),
        names_view(redefines@) == effective_redefines(mappings@, usage@),
        usage_tail(
            t@,
            mappings@,
            policy,
            usage@,
            opt_str_view(ty),
            strings_view(features@),
            opt_str_view(reference),
            opt_str_view(source),
            opt_str_view(target),
        ) is Some,
    ensures
        match usage_tail(
            t@,
            mappings@,
            policy,
            usage@,
            opt_str_view(ty),
            strings_view(features@),
            opt_str_view(reference),
            opt_str_view(source),
            opt_str_view(target),
        )->Some_0 {
            Ok(h) => r matches Ok(x) && refs_view(x) == h,
            Err(e) => r matches Err(d) && reports(d, e),
        },
{
    proof {
        reveal(usage_tail);
    }
    let additional = match resolve_additional_types(t, usage, policy) {
        Ok(x) => x,
        Err(e) => {
            return Err(e);
        },
    };
    let (specializes, features) = match resolve_specializations(t, usage, policy, features) {
        Ok(x) => x,
        Err(e) => {
            return Err(e);
        },
    };
    let subsetted = match resolve_subsettings(t, usage, policy) {
        Ok(x) => x,
        Err(e) => {
            return Err(e);
        },
    };
    let redefined = match resolve_redefinitions(t, usage, policy, redefines) {
        Ok(x) => x,
        Err(e) => {
            return Err(e);
        },
    };
    let (ty, specialized) = resolve_connection_step(t, mappings, usage, &reference, ty, features);
    let type_ref = resolve_final_type(t, usage, ty, &redefined, &subsetted, &specialized);
    Ok(
        UsageRefs {
            type_ref,
            additional_type_refs: additional,
            reference_target: reference,
            allocation_source: source,
            allocation_target: target,
            specializes,
            specialized_features: specialized,
            subsetted_features: subsetted,
            redefined_features: redefined,
        },
    )
}

/// What the references of `usage` resolve to, in order.
fn resolve_usage_refs(t: &Tables, mappings: &MappingBundle, policy: ResolvePolicy, usage: &CollectedUsage) -> (r: Result<
    UsageRefs,
    Diagnostic,
>)
    requires
        specializations_end(inherit_context(t@)),
        usage_head(t@, mappings@, policy, usage@) is Some,
    ensures
        match usage_head(t@, mappings@, policy, usage@)->Some_0 {
            Ok(h) => r matches Ok(x) && refs_view(x) == h,
            Err(e) => r matches Err(d) && reports(d, e),
        },
{
    let implicit = should_use_implicit_reference_redefinition_target(mappings, usage);
    let mut reference_name = if implicit {
        Some(usage.redefines[0].duplicate())
    } else {
        clone_opt_name(&usage.reference_target)
    };
    if reference_name.is_none() {
        reference_name = shorthand_reference_target(mappings, usage);
    }
    assert(opt_name_view(reference_name) == effective_reference(mappings@, usage@));
    let redefines = if implicit {
        Vec::new()
    } else {
        clone_names(&usage.redefines)
    };
    assert(names_view(redefines@) =~= effective_redefines(mappings@, usage@));
    let (ty, features) = match resolve_type_step(t, usage, policy) {
        Ok(x) => x,
        Err(e) => {
            return Err(e);
        },
    };
    let reference = match resolve_reference_step(t, mappings, usage, &reference_name) {
        Ok(x) => x,
        Err(e) => {
            return Err(e);
        },
    };
    let source = match resolve_allocation_step(t, usage, &usage.allocation_source, false, "allocation source") {
        Ok(x) => x,
        Err(e) => {
            return Err(e);
        },
    };
    let target = match resolve_allocation_step(t, usage, &usage.allocation_target, true, "allocation target") {
        Ok(x) => x,
        Err(e) => {
            return Err(e);
        },
    };
    resolve_usage_tail(t, mappings, policy, usage, &redefines, ty, features, reference, source, target)
}

/// Resolution stops at the first usage of `s` whose resolution does not
/// end or fails.
proof fn lemma_members_stop(t: TablesView, m: MappingView, p: ResolvePolicy, s: Seq<CollectedUsage>, i: int)
    requires
        0 <= i <= s.len(),
        !(resolved_members(t, m, p, cusages_view(s.subrange(0, i))) matches Some(Ok(_))),
    ensures
        resolved_members(t, m, p, cusages_view(s)) == resolved_members(t, m, p, cusages_view(s.subrange(0, i))),
    decreases s.len() - i,
{
    if i < s.len() {
        let a = s.subrange(0, i);
        let b = s.subrange(0, i + 1);
        assert(b =~= a.push(s[i]));
        lemma_cusages_view_push(a, s[i]);
        assert(cusages_view(b).drop_last() =~= cusages_view(a));
        lemma_members_stop(t, m, p, s, i + 1);
    } else {
        assert(s.subrange(0, s.len() as int) =~= s);
    }
}

/// Resolves the usages `v` in order; the first failure fails them.
pub fn resolve_members(t: &Tables, v: &Vec<CollectedUsage>, mappings: &MappingBundle, policy: ResolvePolicy) -> (r:
    Result<Vec<ResolvedUsage>, Diagnostic>)
    requires
        specializations_end(inherit_context(t@)),
        resolved_members(t@, mappings@, policy, cusages_view(v@)) is Some,
    ensures
        match resolved_members(t@, mappings@, policy, cusages_view(v@))->Some_0 {
            Ok(ms) => r matches Ok(x) && rusages_view(x@) == ms,
            Err(e) => r matches Err(d) && reports(d, e),
        },
    decreases v,
{
    let mut done: Vec<ResolvedUsage> = Vec::new();
    let n = v.len();
    let mut i: usize = 0;
    assert(v@.subrange(0, 0) =~= Seq::<CollectedUsage>::empty());
    assert(rusages_view(done@) =~= Seq::<ResolvedUsageView>::empty());
    while i < n
        invariant
            n == v@.len(),
            i <= n,
            specializations_end(inherit_context(t@)),
            resolved_members(t@, mappings@, policy, cusages_view(v@)) is Some,
            resolved_members(t@, mappings@, policy, cusages_view(v@.subrange(0, i as int))) == Some(
                Ok::<Seq<ResolvedUsageView>, Failure>(rusages_view(done@)),
            ),
        decreases n - i,
    {
        proof {
            vstd::std_specs::vec::axiom_vec_index_decreases(*v, i as int);
            let a = v@.subrange(0, i as int);
            let b = v@.subrange(0, i + 1);
            assert(b =~= a.push(v@[i as int]));
            lemma_cusages_view_push(a, v@[i as int]);
            assert(cusages_view(b).drop_last() =~= cusages_view(a));
            assert(cusages_view(b).last() == v@[i as int]@);
            if resolved_usage(t@, mappings@, policy, v@[i as int]@) is None {
                lemma_members_stop(t@, mappings@, policy, v@, i + 1);
            }
        }
        match resolve_usage(t, &v[i], mappings, policy) {
            Ok(x) => {
                let ghost before = done@;
                done.push(x);
                proof {
                    assert(done@.drop_last() =~= before);
                }
            },
            Err(e) => {
                proof {
                    lemma_members_stop(t@, mappings@, policy, v@, i + 1);
                }
                return Err(e);
            },
        }
        i = i + 1;
    }
    assert(v@.subrange(0, n as int) =~= v@);
    Ok(done)
}

/// Resolves `usage`: its type, reference target, allocation endpoints,
/// additional types, specializations, subsettings and redefinitions to
/// ids, in that order, then its members; the first reference that does not
/// resolve fails it unless `policy` keeps unresolved references as written.
pub fn resolve_usage(t: &Tables, usage: &CollectedUsage, mappings: &MappingBundle, policy: ResolvePolicy) -> (r: Result<
    ResolvedUsage,
    Diagnostic,
>)
    requires
        specializations_end(inherit_context(t@)),
        resolved_usage(t@, mappings@, policy, usage@) is Some,
    ensures
        match resolved_usage(t@, mappings@, policy, usage@)->Some_0 {
            Ok(v) => r matches Ok(x) && rusage_view(x) == v,
            Err(e) => r matches Err(d) && reports(d, e),
        },
    decreases usage,
{
    let refs = match resolve_usage_refs(t, mappings, policy, usage) {
        Ok(x) => x,
        Err(e) => {
            return Err(e);
        },
    };
    let members = match resolve_members(t, &usage.members, mappings, policy) {
        Ok(x) => x,
        Err(e) => {
            return Err(e);
        },
    };
    let has_explicit_type = usage.ty.is_some() || usage.additional_types.len() > 0;
    let is_derived = strings_contain(&usage.modifiers, "derived");
    let r = ResolvedUsage {
        construct: usage.construct.clone(),
        owner_construct: usage.owner_construct.clone(),
        owner_qualified_name: usage.owner_qualified_name.clone(),
        qualified_name: usage.qualified_name.clone(),
        declared_name: usage.declared_name.clone(),
        is_implicit_name: usage.is_implicit_name,
        has_explicit_type,
        type_ref: refs.type_ref,
        additional_type_refs: refs.additional_type_refs,
        reference_target: refs.reference_target,
        allocation_source: refs.allocation_source,
        allocation_target: refs.allocation_target,
        metadata_properties: usage.metadata_properties.copy(),
        multiplicity: clone_opt_multiplicity(&usage.multiplicity),
        expression: None,
        is_derived,
        specializes: refs.specializes,
        specialized_features: refs.specialized_features,
        subsetted_features: refs.subsetted_features,
        redefined_features: refs.redefined_features,
        members,
        modifiers: clone_strings(&usage.modifiers),
        docs: clone_strings(&usage.docs),
        span: usage.span,
    };
    Ok(r)
}

// ---------------------------------------------------------------- definitions

/// What the specializations of definition `d` from the `i`-th on resolve
/// to, in its own scope.
pub open spec fn definition_specializes_step(t: TablesView, d: CollectedDefinitionView, p: ResolvePolicy, i: int) -> Option<
    Result<Seq<Seq<char>>, Failure>,
>
    decreases d.specializes.len() - i,
{
    if i < 0 || i >= d.specializes.len() {
        Some(Ok(Seq::empty()))
    } else {
        let n = d.specializes[i];
        match in_scope(t, n, d.qualified_name) {
            None => None,
            Some(found) => match unresolved(found, n, "specialization"@, p) {
                Err(e) => Some(Err(e)),
                Ok(x) => match definition_specializes_step(t, d, p, i + 1) {
                    None => None,
                    Some(Err(e)) => Some(Err(e)),
                    Some(Ok(rest)) => Some(Ok(seq![x] + rest)),
                },
            },
        }
    }
}

/// A resolved definition, as characters.
pub struct ResolvedDefinitionView {
    pub construct: Seq<char>,
    pub qualified_name: Seq<char>,
    pub declared_name: Seq<char>,
    pub is_abstract: bool,
    pub specializes: Seq<Seq<char>>,
    pub members: Seq<ResolvedUsageView>,
    pub docs: Seq<Seq<char>>,
    pub span: SourceSpan,
}

/// The view of a resolved definition.
pub open spec fn rdefinition_view(d: ResolvedDefinition) -> ResolvedDefinitionView {
    ResolvedDefinitionView {
        construct: d.construct@,
        qualified_name: d.qualified_name@,
        declared_name: d.declared_name@,
        is_abstract: d.is_abstract,
        specializes: strings_view(d.specializes@),
        members: rusages_view(d.members@),
        docs: strings_view(d.docs@),
        span: d.span,
    }
}

/// What definition `d` resolves to: its specializations, then its members.
pub open spec fn resolved_definition(t: TablesView, m: MappingView, p: ResolvePolicy, d: CollectedDefinitionView) -> Option<
    Result<ResolvedDefinitionView, Failure>,
> {
    match definition_specializes_step(t, d, p, 0) {
        None => None,
        Some(Err(e)) => Some(Err(e)),
        Some(Ok(sp)) => match resolved_members(t, m, p, d.members) {
            None => None,
            Some(Err(e)) => Some(Err(e)),
            Some(Ok(ms)) => Some(
                Ok(
                    ResolvedDefinitionView {
                        construct: d.construct,
                        qualified_name: d.qualified_name,
                        declared_name: d.declared_name,
                        is_abstract: d.is_abstract,
                        specializes: sp,
                        members: ms,
                        docs: d.docs,
                        span: d.span,
                    },
                ),
            ),
        },
    }
}

/// Resolves `definition`: the types it specializes, in its own scope, then
/// its members.
pub fn resolve_definition(
    t: &Tables,
    definition: &CollectedDefinition,
    mappings: &MappingBundle,
    policy: ResolvePolicy,
) -> (r: Result<ResolvedDefinition, Diagnostic>)
    requires
        specializations_end(inherit_context(t@)),
        resolved_definition(t@, mappings@, policy, definition@) is Some,
    ensures
        match resolved_definition(t@, mappings@, policy, definition@)->Some_0 {
            Ok(v) => r matches Ok(x) && rdefinition_view(x) == v,
            Err(e) => r matches Err(d) && reports(d, e),
        },
{
    let ghost d = definition@;
    let mut done: Vec<String> = Vec::new();
    let n = definition.specializes.len();
    let mut i: usize = 0;
    assert(strings_view(done@) + Seq::<Seq<char>>::empty() =~= Seq::<Seq<char>>::empty());
    while i < n
        invariant
            d == definition@,
            n == d.specializes.len(),
            i <= n,
            definition_specializes_step(t@, d, policy, 0) is Some,
            definition_specializes_step(t@, d, policy, 0) == after(
                strings_view(done@),
                definition_specializes_step(t@, d, policy, i as int),
            ),
        decreases n - i,
    {
        let name = &definition.specializes[i];
        let found = type_in_scope(t, name, definition.qualified_name.as_str());
        match unresolved_or_error(found, name, "specialization", policy) {
            Ok(x) => {
                let ghost before = strings_view(done@);
                done.push(x);
                proof {
                    assert(strings_view(done@) =~= before.push(x@));
                    match definition_specializes_step(t@, d, policy, i + 1) {
                        Some(Ok(rest)) => {
                            assert(before + (seq![x@] + rest) =~= before.push(x@) + rest);
                        },
                        _ => {},
                    }
                }
            },
            Err(e) => {
                return Err(e);
            },
        }
        i = i + 1;
    }
    assert(strings_view(done@) + Seq::<Seq<char>>::empty() =~= strings_view(done@));
    let members = match resolve_members(t, &definition.members, mappings, policy) {
        Ok(x) => x,
        Err(e) => {
            return Err(e);
        },
    };
    Ok(
        ResolvedDefinition {
            construct: definition.construct.clone(),
            qualified_name: definition.qualified_name.clone(),
            declared_name: definition.declared_name.clone(),
            is_abstract: definition.is_abstract,
            specializes: done,
            members,
            docs: clone_strings(&definition.docs),
            span: definition.span,
        },
    )
}

// ---------------------------------------------------------------- policies

/// A reference that resolves, or is kept, under one policy is the same
/// under a policy that keeps unresolved references.
proof fn lemma_unresolved_kept(found: Option<Seq<char>>, n: QualifiedNameView, kind: Seq<char>, p1: ResolvePolicy, p2: ResolvePolicy)
    requires
        unresolved(found, n, kind, p1) is Ok,
        p2.preserve_unresolved_references,
    ensures
        unresolved(found, n, kind, p2) == unresolved(found, n, kind, p1),
{
}

proof fn lemma_additional_kept(t: TablesView, u: CollectedUsageView, p1: ResolvePolicy, p2: ResolvePolicy, i: int)
    requires
        additional_types_step(t, u, p1, i) matches Some(Ok(_)),
        p2.preserve_unresolved_references,
    ensures
        additional_types_step(t, u, p2, i) == additional_types_step(t, u, p1, i),
    decreases u.additional_types.len() - i,
{
    if 0 <= i < u.additional_types.len() {
        let n = u.additional_types[i];
        lemma_unresolved_kept(in_scope(t, n, u.owner_qualified_name)->Some_0, n, "type"@, p1, p2);
        lemma_additional_kept(t, u, p1, p2, i + 1);
    }
}

proof fn lemma_specializes_kept(
    t: TablesView,
    u: CollectedUsageView,
    p1: ResolvePolicy,
    p2: ResolvePolicy,
    i: int,
    ts: Seq<Seq<char>>,
    fs: Seq<Seq<char>>,
)
    requires
        specializes_step(t, u, p1, i, ts, fs) matches Some(Ok(_)),
        p2.preserve_unresolved_references,
    ensures
        specializes_step(t, u, p2, i, ts, fs) == specializes_step(t, u, p1, i, ts, fs),
    decreases u.specializes.len() - i,
{
    reveal(specializes_step);
    if 0 <= i < u.specializes.len() {
        let n = u.specializes[i];
        match feature_of(t, u, n) {
            Some(Some(f)) => lemma_specializes_kept(t, u, p1, p2, i + 1, ts, fs.push(f)),
            Some(None) => if self_reference(u, n) {
                lemma_specializes_kept(t, u, p1, p2, i + 1, ts, fs.push("feature."@ + u.qualified_name));
            } else {
                match in_scope(t, n, u.owner_qualified_name) {
                    Some(Some(x)) => lemma_specializes_kept(t, u, p1, p2, i + 1, ts.push(x), fs),
                    Some(None) => {
                        lemma_unresolved_kept(None, n, "specialization"@, p1, p2);
                        let x = unresolved(None, n, "specialization"@, p1)->Ok_0;
                        lemma_specializes_kept(t, u, p1, p2, i + 1, ts.push(x), fs);
                    },
                    None => {},
                }
            },
            None => {},
        }
    }
}

proof fn lemma_subsets_kept(t: TablesView, u: CollectedUsageView, p1: ResolvePolicy, p2: ResolvePolicy, i: int)
    requires
        subsets_step(t, u, p1, i) matches Some(Ok(_)),
        p2.preserve_unresolved_references,
    ensures
        subsets_step(t, u, p2, i) == subsets_step(t, u, p1, i),
    decreases u.subsets.len() - i,
{
    if 0 <= i < u.subsets.len() {
        let n = u.subsets[i];
        lemma_unresolved_kept(feature_of(t, u, n)->Some_0, n, "subset target"@, p1, p2);
        lemma_subsets_kept(t, u, p1, p2, i + 1);
    }
}

proof fn lemma_redefines_kept(
    t: TablesView,
    u: CollectedUsageView,
    p1: ResolvePolicy,
    p2: ResolvePolicy,
    rs: Seq<QualifiedNameView>,
    i: int,
)
    requires
        redefines_step(t, u, p1, rs, i) matches Some(Ok(_)),
        p2.preserve_unresolved_references,
    ensures
        redefines_step(t, u, p2, rs, i) == redefines_step(t, u, p1, rs, i),
    decreases rs.len() - i,
{
    if 0 <= i < rs.len() {
        let n = rs[i];
        let found = redefinition_of(t, u, n)->Some_0;
        let found2 = if found is Some {
            found
        } else if n.segments.len() == 1 {
            match unique(modifier_alias_matches(t.usages, n.segments[0], u.qualified_name)) {
                Some(l) => Some("feature."@ + l),
                None => None,
            }
        } else {
            None
        };
        lemma_unresolved_kept(found2, n, "redefinition target"@, p1, p2);
        lemma_redefines_kept(t, u, p1, p2, rs, i + 1);
    }
}

proof fn lemma_type_kept(t: TablesView, u: CollectedUsageView, p1: ResolvePolicy, p2: ResolvePolicy)
    requires
        type_step(t, u, p1) matches Some(Ok(_)),
        p2.preserve_unresolved_references,
    ensures
        type_step(t, u, p2) == type_step(t, u, p1),
{
    reveal(type_step);
    if let Some(n) = u.ty {
        if in_scope(t, n, u.owner_qualified_name) == Some(None::<Seq<char>>) && feature_of(t, u, n) == Some(
            None::<Seq<char>>,
        ) {
            lemma_unresolved_kept(None, n, "type"@, p1, p2);
        }
    }
}

proof fn lemma_tail_kept(
    t: TablesView,
    m: MappingView,
    p1: ResolvePolicy,
    p2: ResolvePolicy,
    u: CollectedUsageView,
    ty: Option<Seq<char>>,
    fs: Seq<Seq<char>>,
    reference: Option<Seq<char>>,
    source: Option<Seq<char>>,
    target: Option<Seq<char>>,
)
    requires
        usage_tail(t, m, p1, u, ty, fs, reference, source, target) matches Some(Ok(_)),
        p2.preserve_unresolved_references,
    ensures
        usage_tail(t, m, p2, u, ty, fs, reference, source, target) == usage_tail(t, m, p1, u, ty, fs, reference, source, target),
{
    reveal(usage_tail);
    lemma_additional_kept(t, u, p1, p2, 0);
    lemma_specializes_kept(t, u, p1, p2, 0, Seq::empty(), fs);
    lemma_subsets_kept(t, u, p1, p2, 0);
    lemma_redefines_kept(t, u, p1, p2, effective_redefines(m, u), 0);
}

proof fn lemma_head_kept(t: TablesView, m: MappingView, p1: ResolvePolicy, p2: ResolvePolicy, u: CollectedUsageView)
    requires
        usage_head(t, m, p1, u) matches Some(Ok(_)),
        p2.preserve_unresolved_references,
    ensures
        usage_head(t, m, p2, u) == usage_head(t, m, p1, u),
{
    lemma_type_kept(t, u, p1, p2);
    let typed = type_step(t, u, p1)->Some_0->Ok_0;
    let reference = reference_step(t, m, u)->Some_0->Ok_0;
    let source = allocation_step(t, u, u.allocation_source, false, "allocation source"@)->Some_0->Ok_0;
    let target = allocation_step(t, u, u.allocation_target, true, "allocation target"@)->Some_0->Ok_0;
    lemma_tail_kept(t, m, p1, p2, u, typed.0, typed.1, reference, source, target);
}

proof fn lemma_members_kept(t: TablesView, m: MappingView, p1: ResolvePolicy, p2: ResolvePolicy, s: Seq<CollectedUsageView>)
    requires
        resolved_members(t, m, p1, s) matches Some(Ok(_)),
        p2.preserve_unresolved_references,
    ensures
        resolved_members(t, m, p2, s) == resolved_members(t, m, p1, s),
    decreases s, 0int,
{
    if s.len() > 0 {
        lemma_members_kept(t, m, p1, p2, s.drop_last());
        lemma_keeping_policy_agrees(t, m, p1, p2, s.last());
    }
}

/// A usage that resolves under one policy resolves to the same usage under
/// a policy that keeps unresolved references as written: keeping them
/// never changes what does resolve.
pub proof fn lemma_keeping_policy_agrees(t: TablesView, m: MappingView, p1: ResolvePolicy, p2: ResolvePolicy, u: CollectedUsageView)
    requires
        resolved_usage(t, m, p1, u) matches Some(Ok(_)),
        p2.preserve_unresolved_references,
    ensures
        resolved_usage(t, m, p2, u) == resolved_usage(t, m, p1, u),
    decreases u, 1int,
{
    lemma_head_kept(t, m, p1, p2, u);
    lemma_members_kept(t, m, p1, p2, u.members);
}

// ---------------------------------------------------------------- one id per reference

/// The subsettings of `u` from the `i`-th on, when they resolve, give one
/// id each, in order: what the feature each names resolves to, or under a
/// keeping policy the subsetting as written.
pub proof fn lemma_subsets_one_each(t: TablesView, u: CollectedUsageView, p: ResolvePolicy, i: int)
    requires
        0 <= i <= u.subsets.len(),
        subsets_step(t, u, p, i) matches Some(Ok(_)),
    ensures
        ({
            let v = subsets_step(t, u, p, i)->Some_0->Ok_0;
            &&& v.len() == u.subsets.len() - i
            &&& forall|k: int|
                0 <= k < v.len() ==> feature_of(t, u, #[trigger] u.subsets[i + k]) is Some && unresolved(
                    feature_of(t, u, u.subsets[i + k])->Some_0,
                    u.subsets[i + k],
                    "subset target"@,
                    p,
                ) == Ok::<Seq<char>, Failure>(v[k])
        }),
    decreases u.subsets.len() - i,
{
    if i < u.subsets.len() {
        lemma_subsets_one_each(t, u, p, i + 1);
        let v = subsets_step(t, u, p, i)->Some_0->Ok_0;
        let rest = subsets_step(t, u, p, i + 1)->Some_0->Ok_0;
        assert forall|k: int| 0 <= k < v.len() implies feature_of(t, u, #[trigger] u.subsets[i + k]) is Some && unresolved(
            feature_of(t, u, u.subsets[i + k])->Some_0,
            u.subsets[i + k],
            "subset target"@,
            p,
        ) == Ok::<Seq<char>, Failure>(v[k]) by {
            if k > 0 {
                assert(v[k] == rest[k - 1]);
                assert(u.subsets[(i + 1) + (k - 1)] == u.subsets[i + k]);
            }
        }
    }
}

/// The additional types of `u` from the `i`-th on, when they resolve, give
/// one id each, in order: the type each names in `u`'s owner's scope, or
/// under a keeping policy the type as written.
pub proof fn lemma_additional_types_one_each(t: TablesView, u: CollectedUsageView, p: ResolvePolicy, i: int)
    requires
        0 <= i <= u.additional_types.len(),
        additional_types_step(t, u, p, i) matches Some(Ok(_)),
    ensures
        ({
            let v = additional_types_step(t, u, p, i)->Some_0->Ok_0;
            &&& v.len() == u.additional_types.len() - i
            &&& forall|k: int|
                0 <= k < v.len() ==> in_scope(t, #[trigger] u.additional_types[i + k], u.owner_qualified_name) is Some
                    && unresolved(
                    in_scope(t, u.additional_types[i + k], u.owner_qualified_name)->Some_0,
                    u.additional_types[i + k],
                    "type"@,
                    p,
                ) == Ok::<Seq<char>, Failure>(v[k])
        }),
    decreases u.additional_types.len() - i,
{
    if i < u.additional_types.len() {
        lemma_additional_types_one_each(t, u, p, i + 1);
        let v = additional_types_step(t, u, p, i)->Some_0->Ok_0;
        let rest = additional_types_step(t, u, p, i + 1)->Some_0->Ok_0;
        assert forall|k: int| 0 <= k < v.len() implies in_scope(t, #[trigger] u.additional_types[i + k], u.owner_qualified_name)
            is Some && unresolved(
            in_scope(t, u.additional_types[i + k], u.owner_qualified_name)->Some_0,
            u.additional_types[i + k],
            "type"@,
            p,
        ) == Ok::<Seq<char>, Failure>(v[k]) by {
            if k > 0 {
                assert(v[k] == rest[k - 1]);
                assert(u.additional_types[(i + 1) + (k - 1)] == u.additional_types[i + k]);
            }
        }
    }
}

/// The redefinitions `rs` of `u` from the `i`-th on, when they resolve,
/// give one id each, in order.
pub proof fn lemma_redefines_one_each(t: TablesView, u: CollectedUsageView, p: ResolvePolicy, rs: Seq<QualifiedNameView>, i: int)
    requires
        0 <= i <= rs.len(),
        redefines_step(t, u, p, rs, i) matches Some(Ok(_)),
    ensures
        redefines_step(t, u, p, rs, i)->Some_0->Ok_0.len() == rs.len() - i,
        forall|k: int| i <= k < rs.len() ==> #[trigger] redefinition_of(t, u, rs[k]) is Some,
    decreases rs.len() - i,
{
    if i < rs.len() {
        lemma_redefines_one_each(t, u, p, rs, i + 1);
    }
}

/// A usage that resolves has one subsetted feature per subsetting, in
/// order, each what the feature its subsetting names resolves to (or, under
/// a keeping policy, the subsetting as written); one additional type per
/// additional type written, each the type it names; and one redefined
/// feature per redefinition it is resolved with.
pub proof fn lemma_resolved_usage_one_per_reference(t: TablesView, m: MappingView, p: ResolvePolicy, u: CollectedUsageView)
    requires
        resolved_usage(t, m, p, u) matches Some(Ok(_)),
    ensures
        ({
            let r = resolved_usage(t, m, p, u)->Some_0->Ok_0;
            &&& r.subsetted_features.len() == u.subsets.len()
            &&& forall|k: int|
                0 <= k < u.subsets.len() ==> feature_of(t, u, #[trigger] u.subsets[k]) is Some && unresolved(
                    feature_of(t, u, u.subsets[k])->Some_0,
                    u.subsets[k],
                    "subset target"@,
                    p,
                ) == Ok::<Seq<char>, Failure>(r.subsetted_features[k])
            &&& r.additional_type_refs.len() == u.additional_types.len()
            &&& forall|k: int|
                0 <= k < u.additional_types.len() ==> in_scope(t, #[trigger] u.additional_types[k], u.owner_qualified_name)
                    is Some && unresolved(
                    in_scope(t, u.additional_types[k], u.owner_qualified_name)->Some_0,
                    u.additional_types[k],
                    "type"@,
                    p,
                ) == Ok::<Seq<char>, Failure>(r.additional_type_refs[k])
            &&& r.redefined_features.len() == effective_redefines(m, u).len()
        }),
{
    reveal(usage_tail);
    let h = usage_head(t, m, p, u)->Some_0->Ok_0;
    let typed = type_step(t, u, p)->Some_0->Ok_0;
    lemma_subsets_one_each(t, u, p, 0);
    lemma_additional_types_one_each(t, u, p, 0);
    lemma_redefines_one_each(t, u, p, effective_redefines(m, u), 0);
    let sub = subsets_step(t, u, p, 0)->Some_0->Ok_0;
    assert(h.subsetted_features == sub);
    assert forall|k: int| 0 <= k < u.subsets.len() implies feature_of(t, u, #[trigger] u.subsets[k]) is Some && unresolved(
        feature_of(t, u, u.subsets[k])->Some_0,
        u.subsets[k],
        "subset target"@,
        p,
    ) == Ok::<Seq<char>, Failure>(sub[k]) by {
        assert(u.subsets[0 + k] == u.subsets[k]);
    }
    let add = additional_types_step(t, u, p, 0)->Some_0->Ok_0;
    assert forall|k: int| 0 <= k < u.additional_types.len() implies in_scope(t, #[trigger] u.additional_types[k], u.owner_qualified_name)
        is Some && unresolved(
        in_scope(t, u.additional_types[k], u.owner_qualified_name)->Some_0,
        u.additional_types[k],
        "type"@,
        p,
    ) == Ok::<Seq<char>, Failure>(add[k]) by {
        assert(u.additional_types[0 + k] == u.additional_types[k]);
    }
}

} // verus!
