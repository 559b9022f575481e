//! What a feature reference written in a usage resolves to: the features
//! in scope, those of enclosing usages, those inherited through types,
//! redefinitions, subsettings and specializations, and the library's.
//!
//! The resolution explores owners and definitions once each, tracking the
//! ones seen; walks up owner chains; and gives up on a reference whose
//! walk does not end. The specification below counts the steps a
//! resolution takes (`fuel`); a resolution that ends has some count of
//! steps at which its specification is defined.
use vstd::prelude::*;

use crate::kerml::ast::{QualifiedName, QualifiedNameView, join_dot, strings_view};
use crate::lowering::collect::{CollectedDefinition, CollectedUsage, CollectedUsageView, ImportAliases};
use crate::lowering::features::{local_feature_name, owner_feature_name, stdlib_owned_feature};
use crate::lowering::indexes::usage_lookup;
use crate::lowering::inherit::{
    InheritContext, enclosing_feature, inherited_feature, key_set, owner_modifier_alias, type_ends, type_value,
};
use crate::lowering::local_refs::{local_usage_name, modifier_alias_matches, named_definition_type, owned_by_definition, definition_owned};
use crate::lowering::resolve::{
    base_feature_target, feature_target_id, index_names, matching, stdlib_owner_of, suffix_matches_upto, unique,
};
use crate::lowering::types::{qualified_ref, scoped_type_ref};
use crate::strmap::{StrMap, has_key, keys_sorted, lookup, str_lookup};
use crate::text::{has_sub, is_prefix, is_suffix, last_index};

verus! {

// ---------------------------------------------------------------- tables

/// The indexes that feature resolution reads, as characters.
pub struct TablesView {
    pub ids: Seq<Seq<char>>,
    pub stdlib_aliases: Seq<(Seq<char>, String)>,
    pub stdlib_features: Seq<(Seq<char>, StrMap<String>)>,
    pub local_definitions: Seq<(Seq<char>, String)>,
    pub local_aliases: Seq<(Seq<char>, QualifiedName)>,
    pub imports: ImportAliases,
    pub definition_index: Seq<(Seq<char>, CollectedDefinition)>,
    pub local_features: Seq<(Seq<char>, StrMap<String>)>,
    pub usages: Seq<(Seq<char>, CollectedUsage)>,
}

/// The indexes that feature resolution reads.
pub struct Tables<'a> {
    pub stdlib_ids: &'a [String],
    pub stdlib_feature_index: &'a StrMap<StrMap<String>>,
    pub stdlib_aliases: &'a StrMap<String>,
    pub local_definitions: &'a StrMap<String>,
    pub local_aliases: &'a StrMap<QualifiedName>,
    pub import_aliases: &'a ImportAliases,
    pub definition_index: &'a StrMap<CollectedDefinition>,
    pub local_feature_index: &'a StrMap<StrMap<String>>,
    pub local_usage_map: &'a StrMap<CollectedUsage>,
}

impl<'a> View for Tables<'a> {
    type V = TablesView;

    open spec fn view(&self) -> TablesView {
        TablesView {
            ids: strings_view(self.stdlib_ids@),
            stdlib_aliases: self.stdlib_aliases@,
            stdlib_features: self.stdlib_feature_index@,
            local_definitions: self.local_definitions@,
            local_aliases: self.local_aliases@,
            imports: *self.import_aliases,
            definition_index: self.definition_index@,
            local_features: self.local_feature_index@,
            usages: self.local_usage_map@,
        }
    }
}

/// The part of the tables that inheritance through definitions reads.
pub open spec fn inherit_context(t: TablesView) -> InheritContext {
    InheritContext {
        ids: t.ids,
        stdlib_aliases: t.stdlib_aliases,
        stdlib_features: t.stdlib_features,
        local_definitions: t.local_definitions,
        local_aliases: t.local_aliases,
        imports: t.imports,
        definition_index: t.definition_index,
        local_features: t.local_features,
    }
}

/// A resolution step's outcome: the target found, if any, and the usages
/// and definitions seen so far.
pub struct Step {
    pub value: Option<Seq<char>>,
    pub seen_usages: Set<Seq<char>>,
    pub seen_definitions: Set<Seq<char>>,
}

pub open spec fn step(value: Option<Seq<char>>, seen_usages: Set<Seq<char>>, seen_definitions: Set<Seq<char>>) -> Step {
    Step { value, seen_usages, seen_definitions }
}

/// The element id of the feature with qualified name `q`.
pub open spec fn fid(q: Seq<char>) -> Seq<char> {
    "feature."@ + q
}

/// `name` without its first segment.
pub open spec fn tail(name: QualifiedNameView) -> QualifiedNameView {
    QualifiedNameView { segments: name.segments.skip(1), span: name.span }
}

/// The first segment of `name`, as a name.
pub open spec fn head(name: QualifiedNameView) -> QualifiedNameView {
    QualifiedNameView { segments: seq![name.segments[0]], span: name.span }
}

// ---------------------------------------------------------------- ending helpers

/// Resolving `name` among the module's features ends.
pub open spec fn local_feature_ends(t: TablesView, name: QualifiedNameView) -> bool {
    exists|f: nat| local_feature_name(name, t.local_aliases, t.imports, t.local_features, f) is Some
}

/// What `name` resolves to among the module's features.
pub open spec fn local_feature_value(t: TablesView, name: QualifiedNameView) -> Option<Seq<char>> {
    local_feature_name(
        name,
        t.local_aliases,
        t.imports,
        t.local_features,
        choose|f: nat| local_feature_name(name, t.local_aliases, t.imports, t.local_features, f) is Some,
    )->Some_0
}

/// Resolving `name` among the features of the usages enclosing `owner` ends.
pub open spec fn enclosing_ends(t: TablesView, owner: Seq<char>, name: QualifiedNameView) -> bool {
    exists|f: nat| enclosing_feature(owner, name, t.local_aliases, t.imports, t.local_features, t.usages, f) is Some
}

/// What `name` resolves to among the features of the usages enclosing `owner`.
pub open spec fn enclosing_value(t: TablesView, owner: Seq<char>, name: QualifiedNameView) -> Option<Seq<char>> {
    enclosing_feature(
        owner,
        name,
        t.local_aliases,
        t.imports,
        t.local_features,
        t.usages,
        choose|f: nat| enclosing_feature(owner, name, t.local_aliases, t.imports, t.local_features, t.usages, f) is Some,
    )->Some_0
}

/// Resolving `name` to one of the module's usages ends.
pub open spec fn local_usage_ends(t: TablesView, name: QualifiedNameView) -> bool {
    exists|f: nat| local_usage_name(name, t.local_aliases, t.imports, t.usages, f) is Some
}

/// The usage that `name` resolves to.
pub open spec fn local_usage_value(t: TablesView, name: QualifiedNameView) -> Option<Seq<char>> {
    local_usage_name(
        name,
        t.local_aliases,
        t.imports,
        t.usages,
        choose|f: nat| local_usage_name(name, t.local_aliases, t.imports, t.usages, f) is Some,
    )->Some_0
}

/// Resolving type `name` in the scope `owner` ends.
pub open spec fn scoped_ends(t: TablesView, name: QualifiedNameView, owner: Seq<char>) -> bool {
    exists|f: nat|
        scoped_type_ref(name, owner, t.ids, t.stdlib_aliases, t.local_definitions, t.local_aliases, t.imports, f) is Some
}

/// The type that `name` resolves to in the scope `owner`.
pub open spec fn scoped_value(t: TablesView, name: QualifiedNameView, owner: Seq<char>) -> Option<Seq<char>> {
    scoped_type_ref(
        name,
        owner,
        t.ids,
        t.stdlib_aliases,
        t.local_definitions,
        t.local_aliases,
        t.imports,
        choose|f: nat|
            scoped_type_ref(name, owner, t.ids, t.stdlib_aliases, t.local_definitions, t.local_aliases, t.imports, f)
                is Some,
    )->Some_0
}

/// Resolving `name` as a qualified reference ends.
pub open spec fn qualified_ends(t: TablesView, name: QualifiedNameView) -> bool {
    exists|f: nat| qualified_ref(name, t.ids, t.stdlib_aliases, t.local_definitions, t.local_aliases, f) is Some
}

/// What `name` resolves to as a qualified reference.
pub open spec fn qualified_value(t: TablesView, name: QualifiedNameView) -> Option<Seq<char>> {
    qualified_ref(
        name,
        t.ids,
        t.stdlib_aliases,
        t.local_definitions,
        t.local_aliases,
        choose|f: nat| qualified_ref(name, t.ids, t.stdlib_aliases, t.local_definitions, t.local_aliases, f) is Some,
    )->Some_0
}

/// The library feature a base feature name falls back to, when the library
/// has it.
pub open spec fn base_fallback(name: Seq<char>, ids: Seq<Seq<char>>) -> Option<Seq<char>> {
    match base_feature_target(name) {
        Some(x) => if ids.contains(x) {
            Some(x)
        } else {
            None
        },
        None => None,
    }
}

/// The type of the usage a feature id names, resolved in its owner's scope;
/// the outer `None` when that resolution does not end.
pub open spec fn feature_type(t: TablesView, feature_id: Seq<char>) -> Option<Option<Seq<char>>> {
    if !is_prefix("feature."@, feature_id) {
        Some(None)
    } else {
        match usage_lookup(t.usages, feature_id.skip(8)) {
            None => Some(None),
            Some(u) => match u.ty {
                None => Some(None),
                Some(ty) => if scoped_ends(t, ty, u.owner_qualified_name) {
                    Some(scoped_value(t, ty, u.owner_qualified_name))
                } else {
                    None
                },
            },
        }
    }
}

// ---------------------------------------------------------------- sorted sets

/// The entries of a set of strings in key order.
pub open spec fn sorted_entries(s: Set<Seq<char>>) -> Seq<(Seq<char>, ())> {
    choose|e: Seq<(Seq<char>, ())>| keys_sorted(e) && key_set(e) == s
}


// ---------------------------------------------------------------- the resolution

/// A loop's outcome: the step reached, and whether it returned.
pub struct Flow {
    pub step: Step,
    pub done: bool,
}

/// The usage a feature id names, if it names one of the module's.
pub open spec fn target_usage(t: TablesView, feature_id: Seq<char>) -> Option<CollectedUsageView> {
    if is_prefix("feature."@, feature_id) {
        usage_lookup(t.usages, feature_id.skip(8))
    } else {
        None
    }
}

/// The feature a local type of usage `u` gives `name`, other than `u`;
/// the outer `None` when resolving the type does not end.
pub open spec fn type_owner_feature(t: TablesView, u: CollectedUsageView, name: QualifiedNameView) -> Option<Option<Seq<char>>> {
    match u.ty {
        None => Some(None),
        Some(tn) => if !type_ends(inherit_context(t), tn) {
            None
        } else {
            match type_value(inherit_context(t), tn) {
                Some(tid) => if is_prefix("type."@, tid) {
                    match owner_feature_name(tid.skip(5), name, t.local_aliases, t.imports, t.local_features) {
                        Some(l) => if l != u.qualified_name {
                            Some(Some(l))
                        } else {
                            Some(None)
                        },
                        None => Some(None),
                    }
                } else {
                    Some(None)
                },
                None => Some(None),
            }
        },
    }
}

/// What `name`, written in usage `u`, resolves to with `su` and `sd` seen.
pub open spec fn feature_seen(
    t: TablesView,
    u: CollectedUsageView,
    name: QualifiedNameView,
    su: Set<Seq<char>>,
    sd: Set<Seq<char>>,
    fuel: nat,
) -> Option<Step>
    decreases fuel,
{
    if fuel == 0 {
        None
    } else {
        let f = (fuel - 1) as nat;
        match local_scoped(t, u, name, su, sd, f) {
            None => None,
            Some(s1) => if s1.value is Some {
                Some(s1)
            } else {
                match ancestor_scoped(t, u, name, s1.seen_usages, s1.seen_definitions, f) {
                    None => None,
                    Some(s2) => if s2.value is Some {
                        Some(s2)
                    } else {
                        match sibling_scoped(t, u, name, s2.seen_usages, s2.seen_definitions, f) {
                            None => None,
                            Some(s3) => if s3.value is Some {
                                Some(s3)
                            } else {
                                feature_seen_rest(t, u, name, s3.seen_usages, s3.seen_definitions, f)
                            },
                        }
                    },
                }
            },
        }
    }
}

/// What `name`, written in usage `u`, resolves to once the scoped forms
/// have not resolved it.
pub open spec fn feature_seen_rest(
    t: TablesView,
    u: CollectedUsageView,
    name: QualifiedNameView,
    su: Set<Seq<char>>,
    sd: Set<Seq<char>>,
    fuel: nat,
) -> Option<Step>
    decreases fuel,
{
    if fuel == 0 || !local_feature_ends(t, name) {
        None
    } else {
        let f = (fuel - 1) as nat;
        let q = u.qualified_name;
        let exact = local_feature_value(t, name);
        let own = owner_feature_name(u.owner_qualified_name, name, t.local_aliases, t.imports, t.local_features);
        if exact is Some && exact->Some_0 != q {
            Some(step(Some(fid(exact->Some_0)), su, sd))
        } else if own is Some && own->Some_0 != q {
            Some(step(Some(fid(own->Some_0)), su, sd))
        } else if !enclosing_ends(t, u.owner_qualified_name, name) {
            None
        } else if enclosing_value(t, u.owner_qualified_name, name) is Some && enclosing_value(
            t,
            u.owner_qualified_name,
            name,
        )->Some_0 != q {
            Some(step(Some(fid(enclosing_value(t, u.owner_qualified_name, name)->Some_0)), su, sd))
        } else {
            match inherited_walk(t, name, u.owner_qualified_name, su, sd, f) {
                None => None,
                Some(s4) => if s4.value is Some && s4.value->Some_0 != q {
                    Some(step(Some(fid(s4.value->Some_0)), s4.seen_usages, s4.seen_definitions))
                } else if !local_usage_ends(t, name) {
                    None
                } else if local_usage_value(t, name) is Some && local_usage_value(t, name)->Some_0 != q {
                    Some(step(Some(fid(local_usage_value(t, name)->Some_0)), s4.seen_usages, s4.seen_definitions))
                } else {
                    let inh = if is_suffix("Definition"@, u.owner_construct) {
                        inherited_feature(inherit_context(t), u.owner_qualified_name, name, s4.seen_definitions)
                    } else {
                        (None, s4.seen_definitions)
                    };
                    if inh.0 is Some {
                        Some(step(Some(fid(inh.0->Some_0)), s4.seen_usages, inh.1))
                    } else {
                        match type_owner_feature(t, u, name) {
                            None => None,
                            Some(Some(l)) => Some(step(Some(fid(l)), s4.seen_usages, inh.1)),
                            Some(None) => match owner_usage(t, u.owner_qualified_name, name, s4.seen_usages, inh.1, f) {
                                None => None,
                                Some(s6) => if s6.value is Some && s6.value->Some_0 != q {
                                    Some(step(Some(feature_target_id(s6.value->Some_0)), s6.seen_usages, s6.seen_definitions))
                                } else {
                                    Some(step(None, s6.seen_usages, s6.seen_definitions))
                                },
                            },
                        }
                    }
                },
            }
        }
    }
}

/// A longer name whose first segment is a feature of `u`'s owner, resolved
/// in that feature.
pub open spec fn local_scoped(
    t: TablesView,
    u: CollectedUsageView,
    name: QualifiedNameView,
    su: Set<Seq<char>>,
    sd: Set<Seq<char>>,
    fuel: nat,
) -> Option<Step>
    decreases fuel,
{
    if fuel == 0 {
        None
    } else if name.segments.len() < 2 {
        Some(step(None, su, sd))
    } else {
        let f = (fuel - 1) as nat;
        match lookup(t.local_features, u.owner_qualified_name) {
            None => Some(step(None, su, sd)),
            Some(scope) => match str_lookup(scope@, name.segments[0]) {
                None => Some(step(None, su, sd)),
                Some(target) => match usage_lookup(t.usages, target) {
                    None => Some(step(None, su, sd)),
                    Some(scoped) => {
                        let tl = tail(name);
                        match owner_feature_name(scoped.qualified_name, tl, t.local_aliases, t.imports, t.local_features) {
                            Some(l) => Some(step(Some(fid(l)), su, sd)),
                            None => match owner_usage(t, scoped.qualified_name, tl, su, sd, f) {
                                None => None,
                                Some(s1) => match s1.value {
                                    Some(x) => Some(step(Some(fid(x)), s1.seen_usages, s1.seen_definitions)),
                                    None => feature_seen(t, scoped, tl, s1.seen_usages, s1.seen_definitions, f),
                                },
                            },
                        }
                    },
                },
            },
        }
    }
}

/// A longer name whose first segment names a usage enclosing `u`.
pub open spec fn ancestor_scoped(
    t: TablesView,
    u: CollectedUsageView,
    name: QualifiedNameView,
    su: Set<Seq<char>>,
    sd: Set<Seq<char>>,
    fuel: nat,
) -> Option<Step>
    decreases fuel,
{
    if fuel == 0 {
        None
    } else if name.segments.len() < 2 {
        Some(step(None, su, sd))
    } else {
        ancestor_walk(t, name, u.owner_qualified_name, su, sd, (fuel - 1) as nat)
    }
}

/// The walk up from `cursor` for the enclosing usage that a longer name's
/// first segment names.
pub open spec fn ancestor_walk(
    t: TablesView,
    name: QualifiedNameView,
    cursor: Seq<char>,
    su: Set<Seq<char>>,
    sd: Set<Seq<char>>,
    fuel: nat,
) -> Option<Step>
    decreases fuel,
{
    if fuel == 0 {
        None
    } else {
        let f = (fuel - 1) as nat;
        match usage_lookup(t.usages, cursor) {
            None => Some(step(None, su, sd)),
            Some(ou) => if name.segments[0] == ou.declared_name {
                feature_seen(t, ou, tail(name), su, sd, f)
            } else {
                ancestor_walk(t, name, ou.owner_qualified_name, su, sd, f)
            },
        }
    }
}

/// A longer name whose first segment is a feature of a scope enclosing `u`.
pub open spec fn sibling_scoped(
    t: TablesView,
    u: CollectedUsageView,
    name: QualifiedNameView,
    su: Set<Seq<char>>,
    sd: Set<Seq<char>>,
    fuel: nat,
) -> Option<Step>
    decreases fuel,
{
    if fuel == 0 {
        None
    } else if name.segments.len() < 2 {
        Some(step(None, su, sd))
    } else {
        sibling_walk(t, name, u.owner_qualified_name, su, sd, (fuel - 1) as nat)
    }
}

/// The feature of scope `cursor` that a name's first segment selects: its
/// own feature, else one the scope's usage inherits.
pub open spec fn sibling_target(
    t: TablesView,
    name: QualifiedNameView,
    cursor: Seq<char>,
    su: Set<Seq<char>>,
    sd: Set<Seq<char>>,
    fuel: nat,
) -> Option<(Option<Seq<char>>, Set<Seq<char>>, Set<Seq<char>>)>
    decreases fuel,
{
    if fuel == 0 {
        None
    } else {
        let h = head(name);
        match owner_feature_name(cursor, h, t.local_aliases, t.imports, t.local_features) {
            Some(x) => Some((Some(x), su, sd)),
            None => match usage_lookup(t.usages, cursor) {
                None => Some((None, su, sd)),
                Some(scope_usage) => match owner_usage(t, scope_usage.qualified_name, h, su, sd, (fuel - 1) as nat) {
                    None => None,
                    Some(s) => Some(
                        (
                            match s.value {
                                Some(inh) => if is_prefix("feature."@, inh) {
                                    Some(inh.skip(8))
                                } else if !has_sub(inh, "::"@) {
                                    Some(inh)
                                } else {
                                    None
                                },
                                None => None,
                            },
                            s.seen_usages,
                            s.seen_definitions,
                        ),
                    ),
                },
            },
        }
    }
}

/// The walk up from `cursor` for a scope whose feature a longer name's
/// first segment selects, resolving the rest of the name in that feature.
pub open spec fn sibling_walk(
    t: TablesView,
    name: QualifiedNameView,
    cursor: Seq<char>,
    su: Set<Seq<char>>,
    sd: Set<Seq<char>>,
    fuel: nat,
) -> Option<Step>
    decreases fuel,
{
    if fuel == 0 {
        None
    } else {
        let f = (fuel - 1) as nat;
        let tl = tail(name);
        match sibling_target(t, name, cursor, su, sd, f) {
            None => None,
            Some(found) => match found.0 {
                Some(target) => match usage_lookup(t.usages, target) {
                    None => Some(step(None, found.1, found.2)),
                    Some(scoped) => match owner_feature_name(
                        scoped.qualified_name,
                        tl,
                        t.local_aliases,
                        t.imports,
                        t.local_features,
                    ) {
                        Some(l) => Some(step(Some(fid(l)), found.1, found.2)),
                        None => match owner_usage(t, scoped.qualified_name, tl, found.1, found.2, f) {
                            None => None,
                            Some(s2) => match s2.value {
                                Some(x) => Some(step(Some(feature_target_id(x)), s2.seen_usages, s2.seen_definitions)),
                                None => match feature_seen(t, scoped, tl, s2.seen_usages, s2.seen_definitions, f) {
                                    None => None,
                                    Some(s3) => if s3.value is Some {
                                        Some(s3)
                                    } else {
                                        sibling_next(t, name, cursor, s3.seen_usages, s3.seen_definitions, f)
                                    },
                                },
                            },
                        },
                    },
                },
                None => sibling_next(t, name, cursor, found.1, found.2, f),
            },
        }
    }
}

/// The walk continued at the owner of scope `cursor`, if it is a usage.
pub open spec fn sibling_next(
    t: TablesView,
    name: QualifiedNameView,
    cursor: Seq<char>,
    su: Set<Seq<char>>,
    sd: Set<Seq<char>>,
    fuel: nat,
) -> Option<Step>
    decreases fuel,
{
    if fuel == 0 {
        None
    } else {
        match usage_lookup(t.usages, cursor) {
            None => Some(step(None, su, sd)),
            Some(ou) => sibling_walk(t, name, ou.owner_qualified_name, su, sd, (fuel - 1) as nat),
        }
    }
}

/// The walk up from `cursor` for a feature that an enclosing usage
/// inherits, then one the element past them inherits from definitions.
pub open spec fn inherited_walk(
    t: TablesView,
    name: QualifiedNameView,
    cursor: Seq<char>,
    su: Set<Seq<char>>,
    sd: Set<Seq<char>>,
    fuel: nat,
) -> Option<Step>
    decreases fuel,
{
    if fuel == 0 {
        None
    } else {
        let f = (fuel - 1) as nat;
        match usage_lookup(t.usages, cursor) {
            Some(ou) => match owner_usage(t, ou.qualified_name, name, su, sd, f) {
                None => None,
                Some(s) => if s.value is Some {
                    Some(s)
                } else {
                    inherited_walk(t, name, ou.owner_qualified_name, s.seen_usages, s.seen_definitions, f)
                },
            },
            None => {
                let r = inherited_feature(inherit_context(t), cursor, name, sd);
                Some(step(r.0, su, r.1))
            },
        }
    }
}

/// The definitions and library owners that usage `ow`'s type gives; the
/// outer `None` when resolving the type does not end.
pub open spec fn owner_type_sets(t: TablesView, ow: CollectedUsageView) -> Option<(Set<Seq<char>>, Set<Seq<char>>)> {
    match ow.ty {
        None => Some((Set::empty(), Set::empty())),
        Some(tn) => if !type_ends(inherit_context(t), tn) {
            None
        } else {
            match type_value(inherit_context(t), tn) {
                None => Some((Set::empty(), Set::empty())),
                Some(tid) => if is_prefix("type."@, tid) {
                    Some((Set::empty().insert(tid.skip(5)), Set::empty()))
                } else {
                    Some((Set::empty(), Set::empty().insert(tid)))
                },
            }
        },
    }
}

/// A feature that the usage `owner` has by inheritance: through what its
/// redefinitions, subsettings and specializations resolve to, then its
/// types' definitions, then its library owners. Each usage is explored once.
pub open spec fn owner_usage(
    t: TablesView,
    owner: Seq<char>,
    name: QualifiedNameView,
    su: Set<Seq<char>>,
    sd: Set<Seq<char>>,
    fuel: nat,
) -> Option<Step>
    decreases fuel,
{
    if fuel == 0 {
        None
    } else if su.contains(owner) {
        Some(step(None, su, sd))
    } else {
        let f = (fuel - 1) as nat;
        let su1 = su.insert(owner);
        match usage_lookup(t.usages, owner) {
            None => Some(step(None, su1, sd)),
            Some(ow) => match owner_type_sets(t, ow) {
                None => None,
                Some(typed) => {
                    let std_owners = match stdlib_owner_of(ow.construct) {
                        Some(o) => Set::empty().insert(o),
                        None => Set::empty(),
                    }.union(typed.1);
                    let named = match named_definition_type(ow, t.local_definitions) {
                        Some(tid) => if is_prefix("type."@, tid) {
                            Set::empty().insert(tid.skip(5))
                        } else {
                            Set::empty()
                        },
                        None => Set::empty(),
                    };
                    match usage_type(t, ow, su1, sd, f) {
                        None => None,
                        Some(s1) => {
                            let candidates = typed.0.union(named).union(
                                match s1.value {
                                    Some(q) => Set::empty().insert(q),
                                    None => Set::empty(),
                                },
                            );
                            match owner_redefines(t, ow, name, 0, s1.seen_usages, s1.seen_definitions, f) {
                                None => None,
                                Some(s2) => if s2.value is Some {
                                    Some(s2)
                                } else {
                                    match owner_relations(
                                        t,
                                        ow,
                                        ow.subsets + ow.specializes,
                                        name,
                                        0,
                                        s2.seen_usages,
                                        s2.seen_definitions,
                                        f,
                                    ) {
                                        None => None,
                                        Some(s3) => if s3.value is Some {
                                            Some(s3)
                                        } else {
                                            let c = owner_candidates(t, sorted_entries(candidates), name, 0, s3.seen_definitions);
                                            if c.0 is Some {
                                                Some(step(c.0, s3.seen_usages, c.1))
                                            } else {
                                                Some(step(owner_stdlib(t, sorted_entries(std_owners), name, 0), s3.seen_usages, c.1))
                                            }
                                        },
                                    }
                                },
                            }
                        },
                    }
                },
            },
        }
    }
}

/// The feature `name` selects through what the `i`-th and later
/// redefinitions of `ow` resolve to.
pub open spec fn owner_redefines(
    t: TablesView,
    ow: CollectedUsageView,
    name: QualifiedNameView,
    i: int,
    su: Set<Seq<char>>,
    sd: Set<Seq<char>>,
    fuel: nat,
) -> Option<Step>
    decreases fuel,
{
    if fuel == 0 {
        None
    } else if i < 0 || i >= ow.redefines.len() {
        Some(step(None, su, sd))
    } else {
        let f = (fuel - 1) as nat;
        match redefinition(t, ow, ow.redefines[i], su, sd, f) {
            None => None,
            Some(s) => match s.value {
                None => owner_redefines(t, ow, name, i + 1, s.seen_usages, s.seen_definitions, f),
                Some(tid) => owner_through(t, ow, name, tid, s, OwnerLoop::Redefines, i, f),
            },
        }
    }
}

/// Which of `ow`'s relations a loop walks.
pub enum OwnerLoop {
    Redefines,
    Relations,
}

/// The feature `name` selects through a resolved target `tid`, or the
/// loop continued after it.
pub open spec fn owner_through(
    t: TablesView,
    ow: CollectedUsageView,
    name: QualifiedNameView,
    tid: Seq<char>,
    s: Step,
    which: OwnerLoop,
    i: int,
    fuel: nat,
) -> Option<Step>
    decreases fuel,
{
    if fuel == 0 {
        None
    } else {
        let f = (fuel - 1) as nat;
        match target_usage(t, tid) {
            None => match stdlib_owned_feature(tid, name, t.stdlib_features) {
                Some(x) => Some(step(Some(x), s.seen_usages, s.seen_definitions)),
                None => owner_continue(t, ow, name, which, i + 1, s.seen_usages, s.seen_definitions, f),
            },
            Some(tu) => match owner_feature_name(tu.qualified_name, name, t.local_aliases, t.imports, t.local_features) {
                Some(l) => Some(step(Some(l), s.seen_usages, s.seen_definitions)),
                None => match owner_usage(t, tu.qualified_name, name, s.seen_usages, s.seen_definitions, f) {
                    None => None,
                    Some(s2) => if s2.value is Some {
                        Some(s2)
                    } else {
                        owner_continue(t, ow, name, which, i + 1, s2.seen_usages, s2.seen_definitions, f)
                    },
                },
            },
        }
    }
}

/// The loop over `ow`'s relations continued at the `i`-th.
pub open spec fn owner_continue(
    t: TablesView,
    ow: CollectedUsageView,
    name: QualifiedNameView,
    which: OwnerLoop,
    i: int,
    su: Set<Seq<char>>,
    sd: Set<Seq<char>>,
    fuel: nat,
) -> Option<Step>
    decreases fuel,
{
    if fuel == 0 {
        None
    } else {
        match which {
            OwnerLoop::Redefines => owner_redefines(t, ow, name, i, su, sd, (fuel - 1) as nat),
            OwnerLoop::Relations => owner_relations(t, ow, ow.subsets + ow.specializes, name, i, su, sd, (fuel - 1) as nat),
        }
    }
}

/// The feature `name` selects through what the `i`-th and later of
/// `targets` (`ow`'s subsettings, then specializations) resolve to.
pub open spec fn owner_relations(
    t: TablesView,
    ow: CollectedUsageView,
    targets: Seq<QualifiedNameView>,
    name: QualifiedNameView,
    i: int,
    su: Set<Seq<char>>,
    sd: Set<Seq<char>>,
    fuel: nat,
) -> Option<Step>
    decreases fuel,
{
    if fuel == 0 {
        None
    } else if i < 0 || i >= targets.len() {
        Some(step(None, su, sd))
    } else {
        let f = (fuel - 1) as nat;
        match feature_seen(t, ow, targets[i], su, sd, f) {
            None => None,
            Some(s) => match s.value {
                None => owner_continue(t, ow, name, OwnerLoop::Relations, i + 1, s.seen_usages, s.seen_definitions, f),
                Some(tid) => owner_through(t, ow, name, tid, s, OwnerLoop::Relations, i, f),
            },
        }
    }
}

/// The feature `name` selects in the `i`-th and later candidate
/// definitions: its own, by modifier alias, inherited, or the library's.
pub open spec fn owner_candidates(
    t: TablesView,
    cs: Seq<(Seq<char>, ())>,
    name: QualifiedNameView,
    i: int,
    sd: Set<Seq<char>>,
) -> (Option<Seq<char>>, Set<Seq<char>>)
    decreases cs.len() - i,
{
    if i < 0 || i >= cs.len() {
        (None, sd)
    } else {
        let d = cs[i].0;
        match owner_feature_name(d, name, t.local_aliases, t.imports, t.local_features) {
            Some(l) => (Some(l), sd),
            None => match owner_modifier_alias(d, name, t.local_features, t.usages) {
                Some(l) => (Some(l), sd),
                None => {
                    let r = inherited_feature(inherit_context(t), d, name, sd);
                    if r.0 is Some {
                        r
                    } else {
                        match stdlib_owned_feature("type."@ + d, name, t.stdlib_features) {
                            Some(x) => (Some(x), r.1),
                            None => owner_candidates(t, cs, name, i + 1, r.1),
                        }
                    }
                },
            },
        }
    }
}

/// The feature `name` selects among the library features of the `i`-th and
/// later library owners.
pub open spec fn owner_stdlib(t: TablesView, cs: Seq<(Seq<char>, ())>, name: QualifiedNameView, i: int) -> Option<Seq<char>>
    decreases cs.len() - i,
{
    if i < 0 || i >= cs.len() {
        None
    } else {
        match stdlib_owned_feature(cs[i].0, name, t.stdlib_features) {
            Some(x) => Some(x),
            None => owner_stdlib(t, cs, name, i + 1),
        }
    }
}

/// A type id without its `type.` prefix, or none for another id.
pub open spec fn strip_type(tt: Seq<char>) -> Option<Seq<char>> {
    if is_prefix("type."@, tt) {
        Some(tt.skip(5))
    } else {
        None
    }
}

/// The qualified name of the definition that types usage `u`: its own type,
/// else the type of what its reference target or name resolves to, else of
/// what its redefinitions, subsettings and specializations resolve to.
pub open spec fn usage_type(
    t: TablesView,
    u: CollectedUsageView,
    su: Set<Seq<char>>,
    sd: Set<Seq<char>>,
    fuel: nat,
) -> Option<Step>
    decreases fuel,
{
    if fuel == 0 {
        None
    } else {
        let f = (fuel - 1) as nat;
        match u.ty {
            Some(tn) => if !type_ends(inherit_context(t), tn) {
                None
            } else {
                Some(
                    step(
                        match type_value(inherit_context(t), tn) {
                            Some(tid) => strip_type(tid),
                            None => None,
                        },
                        su,
                        sd,
                    ),
                )
            },
            None => match type_through_reference(t, u, f) {
                None => None,
                Some(Some(r)) => Some(step(r, su, sd)),
                Some(None) => match type_through_name(t, u, f) {
                    None => None,
                    Some(Some(r)) => Some(step(r, su, sd)),
                    Some(None) => match type_redefines(t, u, 0, su, sd, f) {
                        None => None,
                        Some(flow) => if flow.done {
                            Some(flow.step)
                        } else {
                            type_relations(
                                t,
                                u,
                                u.subsets + u.specializes,
                                0,
                                flow.step.seen_usages,
                                flow.step.seen_definitions,
                                f,
                            )
                        },
                    },
                },
            },
        }
    }
}

/// The type that usage `u`'s reference target gives: `Some(r)` when found.
pub open spec fn type_through_reference(t: TablesView, u: CollectedUsageView, fuel: nat) -> Option<Option<Option<Seq<char>>>>
    decreases fuel,
{
    if fuel == 0 {
        None
    } else {
        match u.reference_target {
            None => Some(None),
            Some(rt) => match reference_target(t, u, rt, (fuel - 1) as nat) {
                None => None,
                Some(None) => Some(None),
                Some(Some(tid0)) => match feature_type(t, tid0) {
                    None => None,
                    Some(None) => Some(None),
                    Some(Some(tt)) => Some(Some(strip_type(tt))),
                },
            },
        }
    }
}

/// The type that the feature named like usage `u` gives: `Some(r)` when
/// found.
pub open spec fn type_through_name(t: TablesView, u: CollectedUsageView, fuel: nat) -> Option<Option<Option<Seq<char>>>>
    decreases fuel,
{
    if fuel == 0 {
        None
    } else if u.declared_name.len() == 0 {
        Some(None)
    } else {
        let n = QualifiedNameView { segments: seq![u.declared_name], span: u.span };
        match feature_ref(t, u, n, (fuel - 1) as nat) {
            None => None,
            Some(None) => Some(None),
            Some(Some(tid)) => match feature_type(t, tid) {
                None => None,
                Some(None) => Some(None),
                Some(Some(tt)) => Some(Some(strip_type(tt))),
            },
        }
    }
}

/// The type through the `i`-th and later redefinitions of `u`; a
/// redefinition that does not resolve ends the search.
pub open spec fn type_redefines(
    t: TablesView,
    u: CollectedUsageView,
    i: int,
    su: Set<Seq<char>>,
    sd: Set<Seq<char>>,
    fuel: nat,
) -> Option<Flow>
    decreases fuel,
{
    if fuel == 0 {
        None
    } else if i < 0 || i >= u.redefines.len() {
        Some(Flow { step: step(None, su, sd), done: false })
    } else {
        let f = (fuel - 1) as nat;
        match redefinition(t, u, u.redefines[i], su, sd, f) {
            None => None,
            Some(s) => match s.value {
                None => Some(Flow { step: step(None, s.seen_usages, s.seen_definitions), done: true }),
                Some(target) => match target_usage(t, target) {
                    None => type_redefines(t, u, i + 1, s.seen_usages, s.seen_definitions, f),
                    Some(tu) => if s.seen_usages.contains(tu.qualified_name) {
                        type_redefines(t, u, i + 1, s.seen_usages, s.seen_definitions, f)
                    } else {
                        match usage_type(t, tu, s.seen_usages.insert(tu.qualified_name), s.seen_definitions, f) {
                            None => None,
                            Some(s2) => if s2.value is Some {
                                Some(Flow { step: s2, done: true })
                            } else {
                                type_redefines(t, u, i + 1, s2.seen_usages, s2.seen_definitions, f)
                            },
                        }
                    },
                },
            },
        }
    }
}

/// The type through the `i`-th and later of `targets` (`u`'s subsettings,
/// then specializations).
pub open spec fn type_relations(
    t: TablesView,
    u: CollectedUsageView,
    targets: Seq<QualifiedNameView>,
    i: int,
    su: Set<Seq<char>>,
    sd: Set<Seq<char>>,
    fuel: nat,
) -> Option<Step>
    decreases fuel,
{
    if fuel == 0 {
        None
    } else if i < 0 || i >= targets.len() {
        Some(step(None, su, sd))
    } else {
        let f = (fuel - 1) as nat;
        match feature_seen(t, u, targets[i], su, sd, f) {
            None => None,
            Some(s) => match s.value {
                None => type_relations(t, u, targets, i + 1, s.seen_usages, s.seen_definitions, f),
                Some(target) => match target_usage(t, target) {
                    None => type_relations(t, u, targets, i + 1, s.seen_usages, s.seen_definitions, f),
                    Some(tu) => if s.seen_usages.contains(tu.qualified_name) {
                        type_relations(t, u, targets, i + 1, s.seen_usages, s.seen_definitions, f)
                    } else {
                        match usage_type(t, tu, s.seen_usages.insert(tu.qualified_name), s.seen_definitions, f) {
                            None => None,
                            Some(s2) => if s2.value is Some {
                                Some(s2)
                            } else {
                                type_relations(t, u, targets, i + 1, s2.seen_usages, s2.seen_definitions, f)
                            },
                        }
                    },
                },
            },
        }
    }
}

/// The feature found through the type of an owner usage `ou` of a
/// redefinition: its definition's feature or modifier alias.
pub open spec fn redefinition_type_step(t: TablesView, ou: CollectedUsageView, name: QualifiedNameView) -> Option<Option<Seq<char>>> {
    match ou.ty {
        None => Some(None),
        Some(tn) => if !scoped_ends(t, tn, ou.owner_qualified_name) {
            None
        } else {
            match scoped_value(t, tn, ou.owner_qualified_name) {
                Some(tid) => if is_prefix("type."@, tid) {
                    let d = tid.skip(5);
                    match owner_feature_name(d, name, t.local_aliases, t.imports, t.local_features) {
                        Some(l) => Some(Some(fid(l))),
                        None => match owner_modifier_alias(d, name, t.local_features, t.usages) {
                            Some(l) => Some(Some(fid(l))),
                            None => Some(None),
                        },
                    }
                } else {
                    Some(None)
                },
                None => Some(None),
            }
        },
    }
}

/// The walk up from `cursor` for a redefined feature through the owner
/// usages' types and what they inherit.
pub open spec fn redefinition_walk(
    t: TablesView,
    name: QualifiedNameView,
    cursor: Seq<char>,
    su: Set<Seq<char>>,
    sd: Set<Seq<char>>,
    fuel: nat,
) -> Option<Option<Seq<char>>>
    decreases fuel,
{
    if fuel == 0 {
        None
    } else {
        let f = (fuel - 1) as nat;
        match usage_lookup(t.usages, cursor) {
            None => Some(None),
            Some(ou) => match redefinition_type_step(t, ou, name) {
                None => None,
                Some(Some(x)) => Some(Some(x)),
                Some(None) => match owner_usage(t, ou.qualified_name, name, su, sd, f) {
                    None => None,
                    Some(s) => match s.value {
                        Some(x) => Some(Some(feature_target_id(x))),
                        None => redefinition_walk(t, name, ou.owner_qualified_name, s.seen_usages, s.seen_definitions, f),
                    },
                },
            },
        }
    }
}

/// The last resort for a redefinition: for a simple name, the one feature
/// of a definition, the one feature, the one modifier alias, the base
/// feature fallback or the one library id with that name; for a longer
/// name, the qualified reference.
pub open spec fn redefinition_fallback(t: TablesView, u: CollectedUsageView, name: QualifiedNameView) -> Option<Option<Seq<char>>> {
    if name.segments.len() == 1 {
        let s = name.segments[0];
        let q = u.qualified_name;
        Some(
            if unique(definition_owned(matching(index_names(t.local_features), s, Some(q)), t.definition_index)) is Some {
                Some(fid(unique(definition_owned(matching(index_names(t.local_features), s, Some(q)), t.definition_index))->Some_0))
            } else if unique(matching(index_names(t.local_features), s, Some(q))) is Some {
                Some(fid(unique(matching(index_names(t.local_features), s, Some(q)))->Some_0))
            } else if unique(modifier_alias_matches(t.usages, s, q)) is Some {
                Some(fid(unique(modifier_alias_matches(t.usages, s, q))->Some_0))
            } else if base_fallback(s, t.ids) is Some {
                base_fallback(s, t.ids)
            } else {
                unique(suffix_matches_upto(t.ids, s, t.ids.len() as int))
            },
        )
    } else if !qualified_ends(t, name) {
        None
    } else {
        Some(qualified_value(t, name))
    }
}

/// What a redefinition `name` written in usage `u` resolves to.
pub open spec fn redefinition(
    t: TablesView,
    u: CollectedUsageView,
    name: QualifiedNameView,
    su: Set<Seq<char>>,
    sd: Set<Seq<char>>,
    fuel: nat,
) -> Option<Step>
    decreases fuel,
{
    if fuel == 0 {
        None
    } else {
        let f = (fuel - 1) as nat;
        let q = u.qualified_name;
        if name.segments.len() == 1 && unique(modifier_alias_matches(t.usages, name.segments[0], q)) is Some {
            Some(step(Some(fid(unique(modifier_alias_matches(t.usages, name.segments[0], q))->Some_0)), su, sd))
        } else {
            let inh = if is_suffix("Definition"@, u.owner_construct) {
                inherited_feature(inherit_context(t), u.owner_qualified_name, name, sd)
            } else {
                (None, sd)
            };
            if inh.0 is Some {
                Some(step(Some(feature_target_id(inh.0->Some_0)), su, inh.1))
            } else {
                match feature_seen(t, u, name, su, inh.1, f) {
                    None => None,
                    Some(s1) => if s1.value is Some {
                        Some(s1)
                    } else {
                        match redefinition_walk(t, name, u.owner_qualified_name, Set::empty(), Set::empty(), f) {
                            None => None,
                            Some(Some(x)) => Some(step(Some(x), s1.seen_usages, s1.seen_definitions)),
                            Some(None) => match redefinition_fallback(t, u, name) {
                                None => None,
                                Some(r) => Some(step(r, s1.seen_usages, s1.seen_definitions)),
                            },
                        }
                    },
                }
            }
        }
    }
}

/// Whether a reference written in a usage owned by `construct` is
/// resolved from that owner.
pub open spec fn reference_scope_construct(construct: Seq<char>) -> bool {
    construct == "Package"@ || construct == "PartDefinition"@ || construct == "PartUsage"@ || construct
        == "ActionUsage"@ || construct == "PerformActionUsage"@ || is_suffix("Definition"@, construct)
}

/// The owner (construct and qualified name) a reference target is
/// resolved from: the first owner, walking up through usages, that is a
/// package, a definition, a part or an action.
pub open spec fn reference_scope(
    t: TablesView,
    construct: Seq<char>,
    owner: Seq<char>,
    fuel: nat,
) -> Option<(Seq<char>, Seq<char>)>
    decreases fuel,
{
    if fuel == 0 {
        None
    } else if reference_scope_construct(construct) {
        Some((construct, owner))
    } else {
        match usage_lookup(t.usages, owner) {
            None => Some((construct, owner)),
            Some(ou) => reference_scope(t, ou.owner_construct, ou.owner_qualified_name, (fuel - 1) as nat),
        }
    }
}

/// Usage `u` with another owner.
pub open spec fn with_owner(u: CollectedUsageView, construct: Seq<char>, owner: Seq<char>) -> CollectedUsageView {
    CollectedUsageView { owner_construct: construct, owner_qualified_name: owner, ..u }
}

/// A feature of a namespace enclosing `cursor` that `name` names, innermost
/// first.
pub open spec fn namespace_feature(t: TablesView, cursor: Seq<char>, name: QualifiedNameView) -> Option<Seq<char>>
    decreases cursor.len(),
{
    match last_index(cursor, "."@) {
        None => None,
        Some(i) => if 0 <= i < cursor.len() {
            let p = cursor.take(i);
            match owner_feature_name(p, name, t.local_aliases, t.imports, t.local_features) {
                Some(l) => Some(fid(l)),
                None => namespace_feature(t, p, name),
            }
        } else {
            None
        },
    }
}

/// What the reference target `name` of usage `u` resolves to: as a feature
/// reference from `u`'s reference scope, else as a feature of an enclosing
/// namespace.
pub open spec fn reference_target(t: TablesView, u: CollectedUsageView, name: QualifiedNameView, fuel: nat) -> Option<
    Option<Seq<char>>,
>
    decreases fuel,
{
    if fuel == 0 {
        None
    } else {
        let f = (fuel - 1) as nat;
        match reference_scope(t, u.owner_construct, u.owner_qualified_name, f) {
            None => None,
            Some(scope) => match feature_ref(t, with_owner(u, scope.0, scope.1), name, f) {
                None => None,
                Some(Some(x)) => Some(Some(x)),
                Some(None) => Some(namespace_feature(t, scope.1, name)),
            },
        }
    }
}

/// What the feature reference `name` written in usage `u` resolves to: a
/// unique modifier alias, else the resolution with nothing seen yet.
pub open spec fn feature_ref(t: TablesView, u: CollectedUsageView, name: QualifiedNameView, fuel: nat) -> Option<
    Option<Seq<char>>,
>
    decreases fuel,
{
    if fuel == 0 {
        None
    } else if name.segments.len() == 1 && unique(modifier_alias_matches(t.usages, name.segments[0], u.qualified_name))
        is Some {
        Some(Some(fid(unique(modifier_alias_matches(t.usages, name.segments[0], u.qualified_name))->Some_0)))
    } else {
        match feature_seen(t, u, name, Set::empty(), Set::empty(), (fuel - 1) as nat) {
            None => None,
            Some(s) => Some(s.value),
        }
    }
}

} // verus!
