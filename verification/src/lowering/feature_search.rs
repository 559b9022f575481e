//! The feature resolution itself, step for step as `feature_refs`
//! specifies it. Each function takes the count of steps its resolution
//! takes; the public entries take none and resolve with the count at which
//! the resolution ends.
use vstd::prelude::*;

use crate::kerml::ast::{QualifiedName, QualifiedNameView, strings_view};
use crate::lowering::collect::{CollectedUsage, CollectedUsageView};
use crate::lowering::feature_refs::{
    Tables, TablesView, head, inherit_context, sorted_entries, step, tail, feature_seen, feature_seen_rest,
    local_scoped, ancestor_scoped, ancestor_walk, sibling_scoped, sibling_target, sibling_walk, sibling_next,
    inherited_walk, owner_usage, owner_redefines, owner_through, owner_continue, owner_relations, OwnerLoop,
    owner_candidates, owner_stdlib, usage_type, type_through_reference, type_through_name, type_redefines,
    type_relations, Flow, redefinition_type_step, redefinition_walk, redefinition_fallback, redefinition,
    reference_scope, reference_scope_construct, namespace_feature, reference_target, feature_ref, feature_type,
    type_owner_feature, with_owner, owner_type_sets,
};
use crate::lowering::features::{resolve_local_feature_name, resolve_owner_feature_name, resolve_stdlib_owned_feature_reference};
use crate::lowering::inherit::{
    key_set, specializations_end, resolve_enclosing_usage_feature_reference, resolve_inherited_definition_feature_reference,
    resolve_owner_feature_modifier_alias,
};
use crate::lowering::local_refs::{
    named_definition_type, infer_named_definition_type_ref, resolve_local_usage_qualified_name, unique_definition_owned_feature_match_excluding,
    unique_feature_modifier_alias_match_excluding,
};
use crate::lowering::resolve::{
    feature_id_from_qualified_name, normalize_feature_target_id, opt_str_view, semantic_base_feature_fallback,
    unique_feature_match_excluding, unique_suffix_match, usage_construct_stdlib_owner, stdlib_owner_of,
};
use crate::lowering::types::{resolve_qualified_reference, resolve_type_reference, resolve_type_reference_in_scope};
use crate::strmap::{StrSet, has_key, keys_sorted, lookup, lemma_sorted_lookup_unique};
use crate::text::{is_prefix, concat2, contains_str, ends_with, lemma_last_index, owned, rsplit_once_str, str_eq, strip_prefix_str};

verus! {

// ---------------------------------------------------------------- helpers

/// Marks `k` seen; whether it had not been seen.
fn mark_seen(s: &mut StrSet, k: &str) -> (fresh: bool)
    ensures
        fresh == !key_set(old(s)@).contains(k@),
        key_set(final(s)@) == key_set(old(s)@).insert(k@),
        !fresh ==> key_set(final(s)@) == key_set(old(s)@),
{
    let ghost before = s@;
    if s.contains_key(k) {
        assert(key_set(before).insert(k@) =~= key_set(before));
        return false;
    }
    s.insert(owned(k), ());
    proof {
        assert forall|q: Seq<char>| key_set(s@).contains(q) == key_set(before).insert(k@).contains(q) by {
            assert(has_key(s@, q) == (lookup(s@, q) is Some));
            assert(has_key(before, q) == (lookup(before, q) is Some));
        }
        assert(key_set(s@) =~= key_set(before).insert(k@));
    }
    true
}

/// A sorted listing of a set is the one `sorted_entries` picks.
proof fn lemma_sorted_entries(e: Seq<(Seq<char>, ())>)
    requires
        keys_sorted(e),
    ensures
        sorted_entries(key_set(e)) == e,
{
    let c = sorted_entries(key_set(e));
    assert(keys_sorted(e) && key_set(e) == key_set(e));
    assert(keys_sorted(c) && key_set(c) == key_set(e));
    assert forall|k: Seq<char>| lookup(c, k) == lookup(e, k) by {
        assert(key_set(c).contains(k) == key_set(e).contains(k));
        assert(has_key(c, k) == key_set(c).contains(k));
        assert(has_key(e, k) == key_set(e).contains(k));
    }
    lemma_sorted_lookup_unique(c, e);
}

/// Nothing seen yet.
proof fn lemma_empty_seen()
    ensures
        key_set(Seq::<(Seq<char>, ())>::empty()) == Set::<Seq<char>>::empty(),
{
    assert(key_set(Seq::<(Seq<char>, ())>::empty()) =~= Set::<Seq<char>>::empty());
}

/// `name` without its first segment.
fn name_tail(name: &QualifiedName) -> (r: QualifiedName)
    requires
        name@.segments.len() >= 1,
    ensures
        r@ == tail(name@),
{
    let mut segments: Vec<String> = Vec::new();
    let n = name.segments.len();
    let mut i: usize = 1;
    while i < n
        invariant
            n == name.segments@.len(),
            1 <= i <= n,
            segments@.len() == i - 1,
            forall|j: int| 0 <= j < i - 1 ==> segments@[j]@ == name.segments@[j + 1]@,
        decreases n - i,
    {
        segments.push(name.segments[i].clone());
        i = i + 1;
    }
    assert(strings_view(segments@) =~= name@.segments.skip(1));
    QualifiedName { segments, span: name.span }
}

/// The first segment of `name`, as a name.
fn name_head(name: &QualifiedName) -> (r: QualifiedName)
    requires
        name@.segments.len() >= 1,
    ensures
        r@ == head(name@),
{
    let segments = vec![name.segments[0].clone()];
    assert(strings_view(segments@) =~= seq![name@.segments[0]]);
    QualifiedName { segments, span: name.span }
}

/// The position among `u`'s subsettings followed by its specializations of
/// the `i`-th subsetting, or with `in_specializations` of the `i`-th
/// specialization.
spec fn relation_index(u: crate::lowering::collect::CollectedUsageView, in_specializations: bool, i: usize) -> int {
    if in_specializations {
        u.subsets.len() + i
    } else {
        i as int
    }
}

/// The position a loop over `u`'s redefinitions or relations is at.
spec fn loop_index(u: crate::lowering::collect::CollectedUsageView, which: OwnerLoop, in_specializations: bool, i: usize) -> int {
    match which {
        OwnerLoop::Redefines => i as int,
        OwnerLoop::Relations => relation_index(u, in_specializations, i),
    }
}

/// The `i`-th of `u`'s subsettings, or with `in_specializations` of its
/// specializations.
fn relation_at(u: &CollectedUsage, in_specializations: bool, i: usize) -> (r: &QualifiedName)
    requires
        if in_specializations {
            i < u@.specializes.len()
        } else {
            i < u@.subsets.len()
        },
    ensures
        r@ == (u@.subsets + u@.specializes)[relation_index(u@, in_specializations, i)],
{
    if in_specializations {
        &u.specializes[i]
    } else {
        &u.subsets[i]
    }
}

/// The element id of the feature with qualified name `q`.
fn fid(q: &str) -> (r: String)
    ensures
        r@ == "feature."@ + q@,
{
    feature_id_from_qualified_name(q)
}

// ---------------------------------------------------------------- single steps

/// The type of the usage that `feature_id` names, resolved in its owner's
/// scope.
pub fn infer_usage_type_from_feature_id(t: &Tables, feature_id: &str) -> (r: Option<String>)
    requires
        feature_type(t@, feature_id@) is Some,
    ensures
        feature_type(t@, feature_id@) == Some(opt_str_view(r)),
{
    proof {
        reveal_strlit("feature.");
    }
    let target = match strip_prefix_str(feature_id, "feature.") {
        Some(x) => x,
        None => {
            return None;
        },
    };
    let usage = match t.local_usage_map.get(target.as_str()) {
        Some(u) => u,
        None => {
            return None;
        },
    };
    match &usage.ty {
        None => None,
        Some(ty) => resolve_type_reference_in_scope(
            ty,
            usage.owner_qualified_name.as_str(),
            t.stdlib_ids,
            t.stdlib_aliases,
            t.local_definitions,
            t.local_aliases,
            t.import_aliases,
        ),
    }
}

/// The feature that a local type of `usage` gives `name`, other than
/// `usage` itself.
fn resolve_type_owner_feature(t: &Tables, usage: &CollectedUsage, name: &QualifiedName) -> (r: Option<String>)
    requires
        type_owner_feature(t@, usage@, name@) is Some,
    ensures
        type_owner_feature(t@, usage@, name@) == Some(opt_str_view(r)),
{
    proof {
        reveal_strlit("type.");
    }
    match &usage.ty {
        None => None,
        Some(tn) => {
            let tid = resolve_type_reference(
                tn,
                t.stdlib_ids,
                t.stdlib_aliases,
                t.local_definitions,
                t.local_aliases,
                t.import_aliases,
            );
            match tid {
                None => None,
                Some(tid) => match strip_prefix_str(tid.as_str(), "type.") {
                    None => None,
                    Some(d) => match resolve_owner_feature_name(
                        d.as_str(),
                        name,
                        t.local_aliases,
                        t.import_aliases,
                        t.local_feature_index,
                    ) {
                        Some(l) => if !str_eq(l.as_str(), usage.qualified_name.as_str()) {
                            Some(l)
                        } else {
                            None
                        },
                        None => None,
                    },
                },
            }
        },
    }
}

/// The feature found through the type of `ou`, an owner of a
/// redefinition: its definition's feature or modifier alias.
fn redefinition_type_feature(t: &Tables, ou: &CollectedUsage, name: &QualifiedName) -> (r: Option<String>)
    requires
        redefinition_type_step(t@, ou@, name@) is Some,
    ensures
        redefinition_type_step(t@, ou@, name@) == Some(opt_str_view(r)),
{
    proof {
        reveal_strlit("type.");
    }
    match &ou.ty {
        None => None,
        Some(tn) => {
            let tid = resolve_type_reference_in_scope(
                tn,
                ou.owner_qualified_name.as_str(),
                t.stdlib_ids,
                t.stdlib_aliases,
                t.local_definitions,
                t.local_aliases,
                t.import_aliases,
            );
            match tid {
                None => None,
                Some(tid) => match strip_prefix_str(tid.as_str(), "type.") {
                    None => None,
                    Some(d) => match resolve_owner_feature_name(
                        d.as_str(),
                        name,
                        t.local_aliases,
                        t.import_aliases,
                        t.local_feature_index,
                    ) {
                        Some(l) => Some(fid(l.as_str())),
                        None => match resolve_owner_feature_modifier_alias(
                            d.as_str(),
                            name,
                            t.local_feature_index,
                            t.local_usage_map,
                        ) {
                            Some(l) => Some(fid(l.as_str())),
                            None => None,
                        },
                    },
                },
            }
        },
    }
}

/// The last resort for a redefinition written in `u`.
fn redefinition_last_resort(t: &Tables, u: &CollectedUsage, name: &QualifiedName) -> (r: Option<String>)
    requires
        redefinition_fallback(t@, u@, name@) is Some,
    ensures
        redefinition_fallback(t@, u@, name@) == Some(opt_str_view(r)),
{
    if name.segments.len() == 1 {
        let s = name.segments[0].as_str();
        let q = u.qualified_name.as_str();
        assert(s@ == name@.segments[0]);
        match unique_definition_owned_feature_match_excluding(s, t.local_feature_index, t.definition_index, q) {
            Some(l) => {
                return Some(fid(l.as_str()));
            },
            None => {},
        }
        match unique_feature_match_excluding(s, t.local_feature_index, q) {
            Some(l) => {
                return Some(fid(l.as_str()));
            },
            None => {},
        }
        match unique_feature_modifier_alias_match_excluding(s, t.local_feature_index, t.local_usage_map, q) {
            Some(l) => {
                return Some(fid(l.as_str()));
            },
            None => {},
        }
        match semantic_base_feature_fallback(s, t.stdlib_ids) {
            Some(b) => {
                return Some(b);
            },
            None => {},
        }
        unique_suffix_match(s, t.stdlib_ids)
    } else {
        resolve_qualified_reference(name, t.stdlib_ids, t.stdlib_aliases, t.local_definitions, t.local_aliases)
    }
}

/// Whether a reference written in a usage owned by `construct` is resolved
/// from that owner.
fn is_reference_scope_construct(construct: &str) -> (r: bool)
    ensures
        r == reference_scope_construct(construct@),
{
    str_eq(construct, "Package") || str_eq(construct, "PartDefinition") || str_eq(construct, "PartUsage") || str_eq(
        construct,
        "ActionUsage",
    ) || str_eq(construct, "PerformActionUsage") || ends_with(construct, "Definition")
}

/// A feature of a namespace enclosing `cursor` that `name` names, innermost
/// first.
fn enclosing_namespace_feature(t: &Tables, cursor: &str, name: &QualifiedName) -> (r: Option<String>)
    ensures
        opt_str_view(r) == namespace_feature(t@, cursor@, name@),
    decreases cursor@.len(),
{
    proof {
        reveal_strlit(".");
        lemma_last_index(cursor@, "."@);
    }
    match rsplit_once_str(cursor, ".") {
        None => None,
        Some((parent, _)) => {
            match resolve_owner_feature_name(
                parent.as_str(),
                name,
                t.local_aliases,
                t.import_aliases,
                t.local_feature_index,
            ) {
                Some(l) => Some(fid(l.as_str())),
                None => enclosing_namespace_feature(t, parent.as_str(), name),
            }
        },
    }
}

/// The feature `name` selects in the candidate definitions `cs`, in key
/// order: its own, by modifier alias, inherited, or the library's.
fn owner_candidate_feature(t: &Tables, cs: &StrSet, name: &QualifiedName, sd: &mut StrSet) -> (r: Option<String>)
    requires
        specializations_end(inherit_context(t@)),
    ensures
        owner_candidates(t@, cs@, name@, 0, key_set(old(sd)@)) == (opt_str_view(r), key_set(final(sd)@)),
{
    proof {
        reveal_strlit("type.");
    }
    let ghost s0 = key_set(sd@);
    let n = cs.len();
    let mut i: usize = 0;
    while i < n
        invariant
            n == cs@.len(),
            i <= n,
            specializations_end(inherit_context(t@)),
            s0 == key_set(old(sd)@),
            owner_candidates(t@, cs@, name@, 0, s0) == owner_candidates(t@, cs@, name@, i as int, key_set(sd@)),
        decreases n - i,
    {
        let d = cs.key_at(i);
        assert(inherit_context(t@) == (crate::lowering::inherit::InheritContext {
            ids: strings_view(t.stdlib_ids@),
            stdlib_aliases: t.stdlib_aliases@,
            stdlib_features: t.stdlib_feature_index@,
            local_definitions: t.local_definitions@,
            local_aliases: t.local_aliases@,
            imports: *t.import_aliases,
            definition_index: t.definition_index@,
            local_features: t.local_feature_index@,
        }));
        match resolve_owner_feature_name(d.as_str(), name, t.local_aliases, t.import_aliases, t.local_feature_index) {
            Some(l) => {
                return Some(l);
            },
            None => {},
        }
        match resolve_owner_feature_modifier_alias(d.as_str(), name, t.local_feature_index, t.local_usage_map) {
            Some(l) => {
                return Some(l);
            },
            None => {},
        }
        match resolve_inherited_definition_feature_reference(
            d.as_str(),
            name,
            t.stdlib_ids,
            t.stdlib_feature_index,
            t.stdlib_aliases,
            t.local_definitions,
            t.local_aliases,
            t.import_aliases,
            t.definition_index,
            t.local_feature_index,
            sd,
        ) {
            Some(x) => {
                return Some(x);
            },
            None => {},
        }
        let owner_id = concat2("type.", d.as_str());
        match resolve_stdlib_owned_feature_reference(owner_id.as_str(), name, t.stdlib_feature_index) {
            Some(x) => {
                return Some(x);
            },
            None => {},
        }
        i = i + 1;
    }
    None
}

/// The feature `name` selects among the library features of the owners
/// `cs`, in key order.
fn owner_stdlib_feature(t: &Tables, cs: &StrSet, name: &QualifiedName) -> (r: Option<String>)
    ensures
        opt_str_view(r) == owner_stdlib(t@, cs@, name@, 0),
{
    let n = cs.len();
    let mut i: usize = 0;
    while i < n
        invariant
            n == cs@.len(),
            i <= n,
            owner_stdlib(t@, cs@, name@, 0) == owner_stdlib(t@, cs@, name@, i as int),
        decreases n - i,
    {
        match resolve_stdlib_owned_feature_reference(cs.key_at(i).as_str(), name, t.stdlib_feature_index) {
            Some(x) => {
                return Some(x);
            },
            None => {},
        }
        i = i + 1;
    }
    None
}

/// A feature that `owner` inherits through the definitions it specializes,
/// each explored once; `sd` gathers the definitions explored.
fn inherited_definition_feature(t: &Tables, owner: &str, name: &QualifiedName, sd: &mut StrSet) -> (r: Option<String>)
    requires
        specializations_end(inherit_context(t@)),
    ensures
        (opt_str_view(r), key_set(final(sd)@)) == crate::lowering::inherit::inherited_feature(
            inherit_context(t@),
            owner@,
            name@,
            key_set(old(sd)@),
        ),
{
    assert(inherit_context(t@) == (crate::lowering::inherit::InheritContext {
        ids: strings_view(t.stdlib_ids@),
        stdlib_aliases: t.stdlib_aliases@,
        stdlib_features: t.stdlib_feature_index@,
        local_definitions: t.local_definitions@,
        local_aliases: t.local_aliases@,
        imports: *t.import_aliases,
        definition_index: t.definition_index@,
        local_features: t.local_feature_index@,
    }));
    resolve_inherited_definition_feature_reference(
        owner,
        name,
        t.stdlib_ids,
        t.stdlib_feature_index,
        t.stdlib_aliases,
        t.local_definitions,
        t.local_aliases,
        t.import_aliases,
        t.definition_index,
        t.local_feature_index,
        sd,
    )
}

// ---------------------------------------------------------------- the resolution

/// What `name`, written in `usage`, resolves to with what `su` and `sd`
/// hold seen: a longer name through a feature in scope, an enclosing usage
/// or an enclosing scope's feature, else the unscoped forms.
fn resolve_feature_reference_with_seen(
    t: &Tables,
    usage: &CollectedUsage,
    name: &QualifiedName,
    su: &mut StrSet,
    sd: &mut StrSet,
    Ghost(fuel): Ghost<nat>,
) -> (r: Option<String>)
    requires
        specializations_end(inherit_context(t@)),
        feature_seen(t@, usage@, name@, key_set(old(su)@), key_set(old(sd)@), fuel) is Some,
    ensures
        feature_seen(t@, usage@, name@, key_set(old(su)@), key_set(old(sd)@), fuel) == Some(
            step(opt_str_view(r), key_set(final(su)@), key_set(final(sd)@)),
        ),
    decreases fuel,
{
    let ghost f = (fuel - 1) as nat;
    let r1 = resolve_local_scoped_feature_reference(t, usage, name, su, sd, Ghost(f));
    if r1.is_some() {
        return r1;
    }
    let r2 = resolve_ancestor_scoped_feature_reference(t, usage, name, su, sd, Ghost(f));
    if r2.is_some() {
        return r2;
    }
    let r3 = resolve_enclosing_scope_sibling_feature_reference(t, usage, name, su, sd, Ghost(f));
    if r3.is_some() {
        return r3;
    }
    resolve_unscoped_feature_reference(t, usage, name, su, sd, Ghost(f))
}

/// What `name`, written in `usage`, resolves to once the scoped forms have
/// not resolved it.
fn resolve_unscoped_feature_reference(
    t: &Tables,
    usage: &CollectedUsage,
    name: &QualifiedName,
    su: &mut StrSet,
    sd: &mut StrSet,
    Ghost(fuel): Ghost<nat>,
) -> (r: Option<String>)
    requires
        specializations_end(inherit_context(t@)),
        feature_seen_rest(t@, usage@, name@, key_set(old(su)@), key_set(old(sd)@), fuel) is Some,
    ensures
        feature_seen_rest(t@, usage@, name@, key_set(old(su)@), key_set(old(sd)@), fuel) == Some(
            step(opt_str_view(r), key_set(final(su)@), key_set(final(sd)@)),
        ),
    decreases fuel,
{
    let ghost f = (fuel - 1) as nat;
    let q = usage.qualified_name.as_str();
    let exact = resolve_local_feature_name(name, t.local_aliases, t.import_aliases, t.local_feature_index);
    if let Some(e) = &exact {
        if !str_eq(e.as_str(), q) {
            return Some(fid(e.as_str()));
        }
    }
    let own = resolve_owner_feature_name(
        usage.owner_qualified_name.as_str(),
        name,
        t.local_aliases,
        t.import_aliases,
        t.local_feature_index,
    );
    if let Some(o) = &own {
        if !str_eq(o.as_str(), q) {
            return Some(fid(o.as_str()));
        }
    }
    let enclosing = resolve_enclosing_usage_feature_reference(
        usage.owner_qualified_name.as_str(),
        name,
        t.local_aliases,
        t.import_aliases,
        t.local_feature_index,
        t.local_usage_map,
    );
    if let Some(a) = &enclosing {
        if !str_eq(a.as_str(), q) {
            return Some(fid(a.as_str()));
        }
    }
    let inherited = resolve_enclosing_usage_inherited_feature_reference(
        t,
        usage.owner_qualified_name.as_str(),
        name,
        su,
        sd,
        Ghost(f),
    );
    if let Some(a) = &inherited {
        if !str_eq(a.as_str(), q) {
            return Some(fid(a.as_str()));
        }
    }
    let local_usage = resolve_local_usage_qualified_name(name, t.local_aliases, t.import_aliases, t.local_usage_map);
    if let Some(a) = &local_usage {
        if !str_eq(a.as_str(), q) {
            return Some(fid(a.as_str()));
        }
    }
    if ends_with(usage.owner_construct.as_str(), "Definition") {
        match inherited_definition_feature(t, usage.owner_qualified_name.as_str(), name, sd) {
            Some(x) => {
                return Some(fid(x.as_str()));
            },
            None => {},
        }
    }
    match resolve_type_owner_feature(t, usage, name) {
        Some(l) => {
            return Some(fid(l.as_str()));
        },
        None => {},
    }
    match resolve_owner_usage_feature_reference(t, usage.owner_qualified_name.as_str(), name, su, sd, Ghost(f)) {
        Some(x) => if !str_eq(x.as_str(), q) {
            Some(normalize_feature_target_id(x.as_str()))
        } else {
            None
        },
        None => None,
    }
}

/// A longer name whose first segment is a feature of `usage`'s owner,
/// resolved in that feature.
fn resolve_local_scoped_feature_reference(
    t: &Tables,
    usage: &CollectedUsage,
    name: &QualifiedName,
    su: &mut StrSet,
    sd: &mut StrSet,
    Ghost(fuel): Ghost<nat>,
) -> (r: Option<String>)
    requires
        specializations_end(inherit_context(t@)),
        local_scoped(t@, usage@, name@, key_set(old(su)@), key_set(old(sd)@), fuel) is Some,
    ensures
        local_scoped(t@, usage@, name@, key_set(old(su)@), key_set(old(sd)@), fuel) == Some(
            step(opt_str_view(r), key_set(final(su)@), key_set(final(sd)@)),
        ),
    decreases fuel,
{
    if name.segments.len() < 2 {
        return None;
    }
    let ghost f = (fuel - 1) as nat;
    let scope = match t.local_feature_index.get(usage.owner_qualified_name.as_str()) {
        Some(x) => x,
        None => {
            return None;
        },
    };
    let target = match scope.get(name.segments[0].as_str()) {
        Some(x) => x,
        None => {
            return None;
        },
    };
    let scoped = match t.local_usage_map.get(target.as_str()) {
        Some(u) => u,
        None => {
            return None;
        },
    };
    let tl = name_tail(name);
    match resolve_owner_feature_name(
        scoped.qualified_name.as_str(),
        &tl,
        t.local_aliases,
        t.import_aliases,
        t.local_feature_index,
    ) {
        Some(l) => {
            return Some(fid(l.as_str()));
        },
        None => {},
    }
    match resolve_owner_usage_feature_reference(t, scoped.qualified_name.as_str(), &tl, su, sd, Ghost(f)) {
        Some(x) => {
            return Some(fid(x.as_str()));
        },
        None => {},
    }
    resolve_feature_reference_with_seen(t, scoped, &tl, su, sd, Ghost(f))
}

/// A longer name whose first segment names a usage enclosing `usage`.
fn resolve_ancestor_scoped_feature_reference(
    t: &Tables,
    usage: &CollectedUsage,
    name: &QualifiedName,
    su: &mut StrSet,
    sd: &mut StrSet,
    Ghost(fuel): Ghost<nat>,
) -> (r: Option<String>)
    requires
        specializations_end(inherit_context(t@)),
        ancestor_scoped(t@, usage@, name@, key_set(old(su)@), key_set(old(sd)@), fuel) is Some,
    ensures
        ancestor_scoped(t@, usage@, name@, key_set(old(su)@), key_set(old(sd)@), fuel) == Some(
            step(opt_str_view(r), key_set(final(su)@), key_set(final(sd)@)),
        ),
    decreases fuel,
{
    if name.segments.len() < 2 {
        return None;
    }
    walk_ancestor_scopes(t, name, usage.owner_qualified_name.as_str(), su, sd, Ghost((fuel - 1) as nat))
}

/// The walk up from `cursor` for the enclosing usage that a longer name's
/// first segment names.
fn walk_ancestor_scopes(
    t: &Tables,
    name: &QualifiedName,
    cursor: &str,
    su: &mut StrSet,
    sd: &mut StrSet,
    Ghost(fuel): Ghost<nat>,
) -> (r: Option<String>)
    requires
        specializations_end(inherit_context(t@)),
        name@.segments.len() >= 2,
        ancestor_walk(t@, name@, cursor@, key_set(old(su)@), key_set(old(sd)@), fuel) is Some,
    ensures
        ancestor_walk(t@, name@, cursor@, key_set(old(su)@), key_set(old(sd)@), fuel) == Some(
            step(opt_str_view(r), key_set(final(su)@), key_set(final(sd)@)),
        ),
    decreases fuel,
{
    let ghost f = (fuel - 1) as nat;
    let ou = match t.local_usage_map.get(cursor) {
        Some(u) => u,
        None => {
            return None;
        },
    };
    if str_eq(name.segments[0].as_str(), ou.declared_name.as_str()) {
        let tl = name_tail(name);
        return resolve_feature_reference_with_seen(t, ou, &tl, su, sd, Ghost(f));
    }
    walk_ancestor_scopes(t, name, ou.owner_qualified_name.as_str(), su, sd, Ghost(f))
}

/// A longer name whose first segment is a feature of a scope enclosing
/// `usage`.
fn resolve_enclosing_scope_sibling_feature_reference(
    t: &Tables,
    usage: &CollectedUsage,
    name: &QualifiedName,
    su: &mut StrSet,
    sd: &mut StrSet,
    Ghost(fuel): Ghost<nat>,
) -> (r: Option<String>)
    requires
        specializations_end(inherit_context(t@)),
        sibling_scoped(t@, usage@, name@, key_set(old(su)@), key_set(old(sd)@), fuel) is Some,
    ensures
        sibling_scoped(t@, usage@, name@, key_set(old(su)@), key_set(old(sd)@), fuel) == Some(
            step(opt_str_view(r), key_set(final(su)@), key_set(final(sd)@)),
        ),
    decreases fuel,
{
    if name.segments.len() < 2 {
        return None;
    }
    walk_sibling_scopes(t, name, usage.owner_qualified_name.as_str(), su, sd, Ghost((fuel - 1) as nat))
}

/// The feature of scope `cursor` that a name's first segment selects: its
/// own feature, else one the scope's usage inherits.
fn sibling_scope_target(
    t: &Tables,
    name: &QualifiedName,
    cursor: &str,
    su: &mut StrSet,
    sd: &mut StrSet,
    Ghost(fuel): Ghost<nat>,
) -> (r: Option<String>)
    requires
        specializations_end(inherit_context(t@)),
        name@.segments.len() >= 2,
        sibling_target(t@, name@, cursor@, key_set(old(su)@), key_set(old(sd)@), fuel) is Some,
    ensures
        sibling_target(t@, name@, cursor@, key_set(old(su)@), key_set(old(sd)@), fuel) == Some(
            (opt_str_view(r), key_set(final(su)@), key_set(final(sd)@)),
        ),
    decreases fuel,
{
    proof {
        reveal_strlit("feature.");
    }
    let h = name_head(name);
    match resolve_owner_feature_name(cursor, &h, t.local_aliases, t.import_aliases, t.local_feature_index) {
        Some(x) => {
            return Some(x);
        },
        None => {},
    }
    let scope_usage = match t.local_usage_map.get(cursor) {
        Some(u) => u,
        None => {
            return None;
        },
    };
    match resolve_owner_usage_feature_reference(
        t,
        scope_usage.qualified_name.as_str(),
        &h,
        su,
        sd,
        Ghost((fuel - 1) as nat),
    ) {
        None => None,
        Some(inherited) => match strip_prefix_str(inherited.as_str(), "feature.") {
            Some(x) => Some(x),
            None => if !contains_str(inherited.as_str(), "::") {
                Some(inherited)
            } else {
                None
            },
        },
    }
}

/// The walk up from `cursor` for a scope whose feature a longer name's
/// first segment selects, resolving the rest of the name in that feature.
fn walk_sibling_scopes(
    t: &Tables,
    name: &QualifiedName,
    cursor: &str,
    su: &mut StrSet,
    sd: &mut StrSet,
    Ghost(fuel): Ghost<nat>,
) -> (r: Option<String>)
    requires
        specializations_end(inherit_context(t@)),
        name@.segments.len() >= 2,
        sibling_walk(t@, name@, cursor@, key_set(old(su)@), key_set(old(sd)@), fuel) is Some,
    ensures
        sibling_walk(t@, name@, cursor@, key_set(old(su)@), key_set(old(sd)@), fuel) == Some(
            step(opt_str_view(r), key_set(final(su)@), key_set(final(sd)@)),
        ),
    decreases fuel,
{
    let ghost f = (fuel - 1) as nat;
    let tl = name_tail(name);
    match sibling_scope_target(t, name, cursor, su, sd, Ghost(f)) {
        Some(target) => {
            let scoped = match t.local_usage_map.get(target.as_str()) {
                Some(u) => u,
                None => {
                    return None;
                },
            };
            match resolve_owner_feature_name(
                scoped.qualified_name.as_str(),
                &tl,
                t.local_aliases,
                t.import_aliases,
                t.local_feature_index,
            ) {
                Some(l) => {
                    return Some(fid(l.as_str()));
                },
                None => {},
            }
            match resolve_owner_usage_feature_reference(t, scoped.qualified_name.as_str(), &tl, su, sd, Ghost(f)) {
                Some(x) => {
                    return Some(normalize_feature_target_id(x.as_str()));
                },
                None => {},
            }
            let resolved = resolve_feature_reference_with_seen(t, scoped, &tl, su, sd, Ghost(f));
            if resolved.is_some() {
                return resolved;
            }
            next_sibling_scope(t, name, cursor, su, sd, Ghost(f))
        },
        None => next_sibling_scope(t, name, cursor, su, sd, Ghost(f)),
    }
}

/// The walk continued at the owner of scope `cursor`, if it is a usage.
fn next_sibling_scope(
    t: &Tables,
    name: &QualifiedName,
    cursor: &str,
    su: &mut StrSet,
    sd: &mut StrSet,
    Ghost(fuel): Ghost<nat>,
) -> (r: Option<String>)
    requires
        specializations_end(inherit_context(t@)),
        name@.segments.len() >= 2,
        sibling_next(t@, name@, cursor@, key_set(old(su)@), key_set(old(sd)@), fuel) is Some,
    ensures
        sibling_next(t@, name@, cursor@, key_set(old(su)@), key_set(old(sd)@), fuel) == Some(
            step(opt_str_view(r), key_set(final(su)@), key_set(final(sd)@)),
        ),
    decreases fuel,
{
    match t.local_usage_map.get(cursor) {
        None => None,
        Some(ou) => walk_sibling_scopes(t, name, ou.owner_qualified_name.as_str(), su, sd, Ghost((fuel - 1) as nat)),
    }
}

/// A feature that a usage enclosing `cursor` inherits, innermost first,
/// then one the element past them inherits from definitions.
fn resolve_enclosing_usage_inherited_feature_reference(
    t: &Tables,
    cursor: &str,
    name: &QualifiedName,
    su: &mut StrSet,
    sd: &mut StrSet,
    Ghost(fuel): Ghost<nat>,
) -> (r: Option<String>)
    requires
        specializations_end(inherit_context(t@)),
        inherited_walk(t@, name@, cursor@, key_set(old(su)@), key_set(old(sd)@), fuel) is Some,
    ensures
        inherited_walk(t@, name@, cursor@, key_set(old(su)@), key_set(old(sd)@), fuel) == Some(
            step(opt_str_view(r), key_set(final(su)@), key_set(final(sd)@)),
        ),
    decreases fuel,
{
    let ghost f = (fuel - 1) as nat;
    match t.local_usage_map.get(cursor) {
        Some(ou) => {
            let r = resolve_owner_usage_feature_reference(t, ou.qualified_name.as_str(), name, su, sd, Ghost(f));
            if r.is_some() {
                return r;
            }
            resolve_enclosing_usage_inherited_feature_reference(
                t,
                ou.owner_qualified_name.as_str(),
                name,
                su,
                sd,
                Ghost(f),
            )
        },
        None => inherited_definition_feature(t, cursor, name, sd),
    }
}

/// A feature that the usage `owner` has by inheritance: through what its
/// redefinitions, subsettings and specializations resolve to, then its
/// types' definitions, then its library owners. Each usage is explored
/// once: `su` gathers the usages explored.
fn resolve_owner_usage_feature_reference(
    t: &Tables,
    owner: &str,
    name: &QualifiedName,
    su: &mut StrSet,
    sd: &mut StrSet,
    Ghost(fuel): Ghost<nat>,
) -> (r: Option<String>)
    requires
        specializations_end(inherit_context(t@)),
        owner_usage(t@, owner@, name@, key_set(old(su)@), key_set(old(sd)@), fuel) is Some,
    ensures
        owner_usage(t@, owner@, name@, key_set(old(su)@), key_set(old(sd)@), fuel) == Some(
            step(opt_str_view(r), key_set(final(su)@), key_set(final(sd)@)),
        ),
    decreases fuel,
{
    proof {
        reveal_strlit("type.");
    }
    let ghost f = (fuel - 1) as nat;
    if !mark_seen(su, owner) {
        return None;
    }
    let ow = match t.local_usage_map.get(owner) {
        Some(u) => u,
        None => {
            return None;
        },
    };
    let ghost typed = owner_type_sets(t@, ow@)->Some_0;
    let mut candidates = StrSet::new();
    let mut std_owners = StrSet::new();
    proof {
        lemma_empty_seen();
    }
    match usage_construct_stdlib_owner(ow.construct.as_str()) {
        Some(o) => {
            mark_seen(&mut std_owners, o);
        },
        None => {},
    }
    let ghost std0 = key_set(std_owners@);
    assert(std0 == match stdlib_owner_of(ow@.construct) {
        Some(o) => Set::empty().insert(o),
        None => Set::<Seq<char>>::empty(),
    });
    match &ow.ty {
        Some(tn) => match resolve_type_reference(
            tn,
            t.stdlib_ids,
            t.stdlib_aliases,
            t.local_definitions,
            t.local_aliases,
            t.import_aliases,
        ) {
            Some(tid) => match strip_prefix_str(tid.as_str(), "type.") {
                Some(d) => {
                    mark_seen(&mut candidates, d.as_str());
                },
                None => {
                    mark_seen(&mut std_owners, tid.as_str());
                },
            },
            None => {},
        },
        None => {},
    }
    assert(key_set(candidates@) =~= typed.0);
    assert(key_set(std_owners@) =~= std0.union(typed.1));
    let ghost named = match named_definition_type(ow@, t@.local_definitions) {
        Some(tid) => if is_prefix("type."@, tid) {
            Set::empty().insert(tid.skip(5))
        } else {
            Set::<Seq<char>>::empty()
        },
        None => Set::<Seq<char>>::empty(),
    };
    match infer_named_definition_type_ref(ow, t.local_definitions) {
        Some(tid) => match strip_prefix_str(tid.as_str(), "type.") {
            Some(d) => {
                mark_seen(&mut candidates, d.as_str());
            },
            None => {},
        },
        None => {},
    }
    assert(key_set(candidates@) =~= typed.0.union(named));
    let found_type = resolve_collected_usage_type_qualified_name(t, ow, su, sd, Ghost(f));
    match &found_type {
        Some(q) => {
            mark_seen(&mut candidates, q.as_str());
        },
        None => {},
    }
    assert(key_set(candidates@) =~= typed.0.union(named).union(
        match opt_str_view(found_type) {
            Some(q) => Set::empty().insert(q),
            None => Set::<Seq<char>>::empty(),
        },
    ));
    let r2 = owner_redefinition_targets(t, ow, name, 0, su, sd, Ghost(f));
    if r2.is_some() {
        return r2;
    }
    let r3 = owner_relation_targets(t, ow, name, false, 0, su, sd, Ghost(f));
    if r3.is_some() {
        return r3;
    }
    proof {
        use_type_invariant(&candidates);
        use_type_invariant(&std_owners);
        lemma_sorted_entries(candidates@);
        lemma_sorted_entries(std_owners@);
    }
    let c = owner_candidate_feature(t, &candidates, name, sd);
    if c.is_some() {
        return c;
    }
    owner_stdlib_feature(t, &std_owners, name)
}

/// The feature `name` selects through what the `i`-th and later
/// redefinitions of `ow` resolve to.
fn owner_redefinition_targets(
    t: &Tables,
    ow: &CollectedUsage,
    name: &QualifiedName,
    i: usize,
    su: &mut StrSet,
    sd: &mut StrSet,
    Ghost(fuel): Ghost<nat>,
) -> (r: Option<String>)
    requires
        specializations_end(inherit_context(t@)),
        owner_redefines(t@, ow@, name@, i as int, key_set(old(su)@), key_set(old(sd)@), fuel) is Some,
    ensures
        owner_redefines(t@, ow@, name@, i as int, key_set(old(su)@), key_set(old(sd)@), fuel) == Some(
            step(opt_str_view(r), key_set(final(su)@), key_set(final(sd)@)),
        ),
    decreases fuel,
{
    if i >= ow.redefines.len() {
        return None;
    }
    let ghost f = (fuel - 1) as nat;
    match resolve_redefinition_feature_reference_with_seen(t, ow, &ow.redefines[i], su, sd, Ghost(f)) {
        None => owner_redefinition_targets(t, ow, name, i + 1, su, sd, Ghost(f)),
        Some(tid) => owner_feature_through(t, ow, name, tid.as_str(), OwnerLoop::Redefines, false, i, su, sd, Ghost(f)),
    }
}

/// The feature `name` selects through what the `i`-th and later of `ow`'s
/// subsettings, then specializations, resolve to.
fn owner_relation_targets(
    t: &Tables,
    ow: &CollectedUsage,
    name: &QualifiedName,
    in_specializations: bool,
    i: usize,
    su: &mut StrSet,
    sd: &mut StrSet,
    Ghost(fuel): Ghost<nat>,
) -> (r: Option<String>)
    requires
        specializations_end(inherit_context(t@)),
        owner_relations(
            t@,
            ow@,
            ow@.subsets + ow@.specializes,
            name@,
            relation_index(ow@, in_specializations, i),
            key_set(old(su)@),
            key_set(old(sd)@),
            fuel,
        ) is Some,
    ensures
        owner_relations(
            t@,
            ow@,
            ow@.subsets + ow@.specializes,
            name@,
            relation_index(ow@, in_specializations, i),
            key_set(old(su)@),
            key_set(old(sd)@),
            fuel,
        ) == Some(step(opt_str_view(r), key_set(final(su)@), key_set(final(sd)@))),
    decreases fuel,
{
    let (in_specializations, i) = if !in_specializations && i >= ow.subsets.len() {
        (true, i - ow.subsets.len())
    } else {
        (in_specializations, i)
    };
    if in_specializations && i >= ow.specializes.len() {
        return None;
    }
    let ghost f = (fuel - 1) as nat;
    let target = relation_at(ow, in_specializations, i);
    match resolve_feature_reference_with_seen(t, ow, target, su, sd, Ghost(f)) {
        None => owner_loop_continue(
            t,
            ow,
            name,
            OwnerLoop::Relations,
            in_specializations,
            i + 1,
            su,
            sd,
            Ghost(f),
        ),
        Some(tid) => owner_feature_through(
            t,
            ow,
            name,
            tid.as_str(),
            OwnerLoop::Relations,
            in_specializations,
            i,
            su,
            sd,
            Ghost(f),
        ),
    }
}

/// The feature `name` selects through a resolved target `tid`, or the loop
/// over `ow`'s relations continued after it.
fn owner_feature_through(
    t: &Tables,
    ow: &CollectedUsage,
    name: &QualifiedName,
    tid: &str,
    which: OwnerLoop,
    in_specializations: bool,
    i: usize,
    su: &mut StrSet,
    sd: &mut StrSet,
    Ghost(fuel): Ghost<nat>,
) -> (r: Option<String>)
    requires
        specializations_end(inherit_context(t@)),
        i < usize::MAX,
        owner_through(
            t@,
            ow@,
            name@,
            tid@,
            step(Some(tid@), key_set(old(su)@), key_set(old(sd)@)),
            which,
            loop_index(ow@, which, in_specializations, i),
            fuel,
        ) is Some,
    ensures
        owner_through(
            t@,
            ow@,
            name@,
            tid@,
            step(Some(tid@), key_set(old(su)@), key_set(old(sd)@)),
            which,
            loop_index(ow@, which, in_specializations, i),
            fuel,
        ) == Some(step(opt_str_view(r), key_set(final(su)@), key_set(final(sd)@))),
    decreases fuel,
{
    proof {
        reveal_strlit("feature.");
    }
    let ghost f = (fuel - 1) as nat;
    let target_usage = match strip_prefix_str(tid, "feature.") {
        Some(q) => t.local_usage_map.get(q.as_str()),
        None => None,
    };
    match target_usage {
        None => match resolve_stdlib_owned_feature_reference(tid, name, t.stdlib_feature_index) {
            Some(x) => Some(x),
            None => owner_loop_continue(t, ow, name, which, in_specializations, i + 1, su, sd, Ghost(f)),
        },
        Some(tu) => match resolve_owner_feature_name(
            tu.qualified_name.as_str(),
            name,
            t.local_aliases,
            t.import_aliases,
            t.local_feature_index,
        ) {
            Some(l) => Some(l),
            None => {
                let r = resolve_owner_usage_feature_reference(t, tu.qualified_name.as_str(), name, su, sd, Ghost(f));
                if r.is_some() {
                    return r;
                }
                owner_loop_continue(t, ow, name, which, in_specializations, i + 1, su, sd, Ghost(f))
            },
        },
    }
}

/// The loop over `ow`'s redefinitions or relations continued at the
/// `i`-th.
fn owner_loop_continue(
    t: &Tables,
    ow: &CollectedUsage,
    name: &QualifiedName,
    which: OwnerLoop,
    in_specializations: bool,
    i: usize,
    su: &mut StrSet,
    sd: &mut StrSet,
    Ghost(fuel): Ghost<nat>,
) -> (r: Option<String>)
    requires
        specializations_end(inherit_context(t@)),
        owner_continue(
            t@,
            ow@,
            name@,
            which,
            loop_index(ow@, which, in_specializations, i),
            key_set(old(su)@),
            key_set(old(sd)@),
            fuel,
        ) is Some,
    ensures
        owner_continue(
            t@,
            ow@,
            name@,
            which,
            loop_index(ow@, which, in_specializations, i),
            key_set(old(su)@),
            key_set(old(sd)@),
            fuel,
        ) == Some(
            step(opt_str_view(r), key_set(final(su)@), key_set(final(sd)@)),
        ),
    decreases fuel,
{
    match which {
        OwnerLoop::Redefines => owner_redefinition_targets(t, ow, name, i, su, sd, Ghost((fuel - 1) as nat)),
        OwnerLoop::Relations => owner_relation_targets(t, ow, name, in_specializations, i, su, sd, Ghost((fuel - 1) as nat)),
    }
}

/// The qualified name of the definition that types usage `u`: its own
/// type, else the type of what its reference target or name resolves to,
/// else of what its redefinitions, subsettings and specializations resolve
/// to.
fn resolve_collected_usage_type_qualified_name(
    t: &Tables,
    u: &CollectedUsage,
    su: &mut StrSet,
    sd: &mut StrSet,
    Ghost(fuel): Ghost<nat>,
) -> (r: Option<String>)
    requires
        specializations_end(inherit_context(t@)),
        usage_type(t@, u@, key_set(old(su)@), key_set(old(sd)@), fuel) is Some,
    ensures
        usage_type(t@, u@, key_set(old(su)@), key_set(old(sd)@), fuel) == Some(
            step(opt_str_view(r), key_set(final(su)@), key_set(final(sd)@)),
        ),
    decreases fuel,
{
    proof {
        reveal_strlit("type.");
    }
    let ghost f = (fuel - 1) as nat;
    match &u.ty {
        Some(tn) => {
            let tid = resolve_type_reference(
                tn,
                t.stdlib_ids,
                t.stdlib_aliases,
                t.local_definitions,
                t.local_aliases,
                t.import_aliases,
            );
            return match tid {
                Some(tid) => strip_prefix_str(tid.as_str(), "type."),
                None => None,
            };
        },
        None => {},
    }
    match usage_type_through_reference(t, u, Ghost(f)) {
        Some(r) => {
            return r;
        },
        None => {},
    }
    match usage_type_through_name(t, u, Ghost(f)) {
        Some(r) => {
            return r;
        },
        None => {},
    }
    let (found, done) = usage_type_through_redefines(t, u, 0, su, sd, Ghost(f));
    if done {
        return found;
    }
    usage_type_through_relations(t, u, false, 0, su, sd, Ghost(f))
}

/// The type that usage `u`'s reference target gives, when it gives one.
fn usage_type_through_reference(t: &Tables, u: &CollectedUsage, Ghost(fuel): Ghost<nat>) -> (r: Option<Option<String>>)
    requires
        specializations_end(inherit_context(t@)),
        type_through_reference(t@, u@, fuel) is Some,
    ensures
        type_through_reference(t@, u@, fuel) == Some(
            match r {
                Some(x) => Some(opt_str_view(x)),
                None => None,
            },
        ),
    decreases fuel,
{
    proof {
        reveal_strlit("type.");
    }
    match &u.reference_target {
        None => None,
        Some(rt) => match resolve_reference_usage_target_with_fuel(t, u, rt, Ghost((fuel - 1) as nat)) {
            None => None,
            Some(tid0) => match infer_usage_type_from_feature_id(t, tid0.as_str()) {
                None => None,
                Some(tt) => Some(strip_prefix_str(tt.as_str(), "type.")),
            },
        },
    }
}

/// The type that the feature named like usage `u` gives, when it gives one.
fn usage_type_through_name(t: &Tables, u: &CollectedUsage, Ghost(fuel): Ghost<nat>) -> (r: Option<Option<String>>)
    requires
        specializations_end(inherit_context(t@)),
        type_through_name(t@, u@, fuel) is Some,
    ensures
        type_through_name(t@, u@, fuel) == Some(
            match r {
                Some(x) => Some(opt_str_view(x)),
                None => None,
            },
        ),
    decreases fuel,
{
    proof {
        reveal_strlit("type.");
    }
    if u.declared_name.unicode_len() == 0 {
        return None;
    }
    let n = QualifiedName { segments: vec![u.declared_name.clone()], span: u.span };
    assert(n@ == QualifiedNameView { segments: seq![u@.declared_name], span: u@.span }) by {
        assert(strings_view(n.segments@) =~= seq![u@.declared_name]);
    }
    match resolve_feature_reference_with_fuel(t, u, &n, Ghost((fuel - 1) as nat)) {
        None => None,
        Some(tid) => match infer_usage_type_from_feature_id(t, tid.as_str()) {
            None => None,
            Some(tt) => Some(strip_prefix_str(tt.as_str(), "type.")),
        },
    }
}

/// The type through the `i`-th and later redefinitions of `u`, and whether
/// the search ended there; a redefinition that does not resolve ends it.
fn usage_type_through_redefines(
    t: &Tables,
    u: &CollectedUsage,
    i: usize,
    su: &mut StrSet,
    sd: &mut StrSet,
    Ghost(fuel): Ghost<nat>,
) -> (r: (Option<String>, bool))
    requires
        specializations_end(inherit_context(t@)),
        type_redefines(t@, u@, i as int, key_set(old(su)@), key_set(old(sd)@), fuel) is Some,
    ensures
        type_redefines(t@, u@, i as int, key_set(old(su)@), key_set(old(sd)@), fuel) == Some(
            Flow { step: step(opt_str_view(r.0), key_set(final(su)@), key_set(final(sd)@)), done: r.1 },
        ),
    decreases fuel,
{
    proof {
        reveal_strlit("feature.");
    }
    if i >= u.redefines.len() {
        return (None, false);
    }
    let ghost f = (fuel - 1) as nat;
    let target = match resolve_redefinition_feature_reference_with_seen(t, u, &u.redefines[i], su, sd, Ghost(f)) {
        None => {
            return (None, true);
        },
        Some(x) => x,
    };
    let target_usage = match strip_prefix_str(target.as_str(), "feature.") {
        Some(q) => t.local_usage_map.get(q.as_str()),
        None => None,
    };
    match target_usage {
        None => usage_type_through_redefines(t, u, i + 1, su, sd, Ghost(f)),
        Some(tu) => {
            if !mark_seen(su, tu.qualified_name.as_str()) {
                return usage_type_through_redefines(t, u, i + 1, su, sd, Ghost(f));
            }
            let found = resolve_collected_usage_type_qualified_name(t, tu, su, sd, Ghost(f));
            if found.is_some() {
                return (found, true);
            }
            usage_type_through_redefines(t, u, i + 1, su, sd, Ghost(f))
        },
    }
}

/// The type through the `i`-th and later of `u`'s subsettings, then
/// specializations.
fn usage_type_through_relations(
    t: &Tables,
    u: &CollectedUsage,
    in_specializations: bool,
    i: usize,
    su: &mut StrSet,
    sd: &mut StrSet,
    Ghost(fuel): Ghost<nat>,
) -> (r: Option<String>)
    requires
        specializations_end(inherit_context(t@)),
        type_relations(
            t@,
            u@,
            u@.subsets + u@.specializes,
            relation_index(u@, in_specializations, i),
            key_set(old(su)@),
            key_set(old(sd)@),
            fuel,
        ) is Some,
    ensures
        type_relations(
            t@,
            u@,
            u@.subsets + u@.specializes,
            relation_index(u@, in_specializations, i),
            key_set(old(su)@),
            key_set(old(sd)@),
            fuel,
        ) == Some(step(opt_str_view(r), key_set(final(su)@), key_set(final(sd)@))),
    decreases fuel,
{
    proof {
        reveal_strlit("feature.");
    }
    let (in_specializations, i) = if !in_specializations && i >= u.subsets.len() {
        (true, i - u.subsets.len())
    } else {
        (in_specializations, i)
    };
    if in_specializations && i >= u.specializes.len() {
        return None;
    }
    let ghost f = (fuel - 1) as nat;
    let target = match resolve_feature_reference_with_seen(t, u, relation_at(u, in_specializations, i), su, sd, Ghost(f)) {
        None => {
            return usage_type_through_relations(t, u, in_specializations, i + 1, su, sd, Ghost(f));
        },
        Some(x) => x,
    };
    let target_usage = match strip_prefix_str(target.as_str(), "feature.") {
        Some(q) => t.local_usage_map.get(q.as_str()),
        None => None,
    };
    match target_usage {
        None => usage_type_through_relations(t, u, in_specializations, i + 1, su, sd, Ghost(f)),
        Some(tu) => {
            if !mark_seen(su, tu.qualified_name.as_str()) {
                return usage_type_through_relations(t, u, in_specializations, i + 1, su, sd, Ghost(f));
            }
            let found = resolve_collected_usage_type_qualified_name(t, tu, su, sd, Ghost(f));
            if found.is_some() {
                return found;
            }
            usage_type_through_relations(t, u, in_specializations, i + 1, su, sd, Ghost(f))
        },
    }
}

/// The walk up from `cursor` for a redefined feature through the owner
/// usages' types and what they inherit.
fn walk_redefinition_owners(
    t: &Tables,
    name: &QualifiedName,
    cursor: &str,
    su: &mut StrSet,
    sd: &mut StrSet,
    Ghost(fuel): Ghost<nat>,
) -> (r: Option<String>)
    requires
        specializations_end(inherit_context(t@)),
        redefinition_walk(t@, name@, cursor@, key_set(old(su)@), key_set(old(sd)@), fuel) is Some,
    ensures
        redefinition_walk(t@, name@, cursor@, key_set(old(su)@), key_set(old(sd)@), fuel) == Some(opt_str_view(r)),
    decreases fuel,
{
    let ghost f = (fuel - 1) as nat;
    let ou = match t.local_usage_map.get(cursor) {
        Some(u) => u,
        None => {
            return None;
        },
    };
    match redefinition_type_feature(t, ou, name) {
        Some(x) => {
            return Some(x);
        },
        None => {},
    }
    match resolve_owner_usage_feature_reference(t, ou.qualified_name.as_str(), name, su, sd, Ghost(f)) {
        Some(x) => Some(normalize_feature_target_id(x.as_str())),
        None => walk_redefinition_owners(t, name, ou.owner_qualified_name.as_str(), su, sd, Ghost(f)),
    }
}

/// What a redefinition `name` written in `u` resolves to.
fn resolve_redefinition_feature_reference_with_seen(
    t: &Tables,
    u: &CollectedUsage,
    name: &QualifiedName,
    su: &mut StrSet,
    sd: &mut StrSet,
    Ghost(fuel): Ghost<nat>,
) -> (r: Option<String>)
    requires
        specializations_end(inherit_context(t@)),
        redefinition(t@, u@, name@, key_set(old(su)@), key_set(old(sd)@), fuel) is Some,
    ensures
        redefinition(t@, u@, name@, key_set(old(su)@), key_set(old(sd)@), fuel) == Some(
            step(opt_str_view(r), key_set(final(su)@), key_set(final(sd)@)),
        ),
    decreases fuel,
{
    let ghost f = (fuel - 1) as nat;
    let q = u.qualified_name.as_str();
    if name.segments.len() == 1 {
        match unique_feature_modifier_alias_match_excluding(
            name.segments[0].as_str(),
            t.local_feature_index,
            t.local_usage_map,
            q,
        ) {
            Some(l) => {
                return Some(fid(l.as_str()));
            },
            None => {},
        }
    }
    if ends_with(u.owner_construct.as_str(), "Definition") {
        match inherited_definition_feature(t, u.owner_qualified_name.as_str(), name, sd) {
            Some(x) => {
                return Some(normalize_feature_target_id(x.as_str()));
            },
            None => {},
        }
    }
    let found = resolve_feature_reference_with_seen(t, u, name, su, sd, Ghost(f));
    if found.is_some() {
        return found;
    }
    let mut owner_seen_usages = StrSet::new();
    let mut owner_seen_definitions = StrSet::new();
    proof {
        lemma_empty_seen();
    }
    match walk_redefinition_owners(
        t,
        name,
        u.owner_qualified_name.as_str(),
        &mut owner_seen_usages,
        &mut owner_seen_definitions,
        Ghost(f),
    ) {
        Some(x) => {
            return Some(x);
        },
        None => {},
    }
    redefinition_last_resort(t, u, name)
}

/// The owner (construct and qualified name) a reference target is resolved
/// from: the first owner, walking up through usages, that is a package, a
/// definition, a part or an action.
fn reference_scope_owner(t: &Tables, construct: &str, owner: &str, Ghost(fuel): Ghost<nat>) -> (r: (String, String))
    requires
        reference_scope(t@, construct@, owner@, fuel) is Some,
    ensures
        reference_scope(t@, construct@, owner@, fuel) == Some((r.0@, r.1@)),
    decreases fuel,
{
    if is_reference_scope_construct(construct) {
        return (owned(construct), owned(owner));
    }
    match t.local_usage_map.get(owner) {
        None => (owned(construct), owned(owner)),
        Some(ou) => reference_scope_owner(
            t,
            ou.owner_construct.as_str(),
            ou.owner_qualified_name.as_str(),
            Ghost((fuel - 1) as nat),
        ),
    }
}

/// What the reference target `name` of `u` resolves to: as a feature
/// reference from `u`'s reference scope, else as a feature of an enclosing
/// namespace.
fn resolve_reference_usage_target_with_fuel(
    t: &Tables,
    u: &CollectedUsage,
    name: &QualifiedName,
    Ghost(fuel): Ghost<nat>,
) -> (r: Option<String>)
    requires
        specializations_end(inherit_context(t@)),
        reference_target(t@, u@, name@, fuel) is Some,
    ensures
        reference_target(t@, u@, name@, fuel) == Some(opt_str_view(r)),
    decreases fuel,
{
    let ghost f = (fuel - 1) as nat;
    let (construct, owner) = reference_scope_owner(
        t,
        u.owner_construct.as_str(),
        u.owner_qualified_name.as_str(),
        Ghost(f),
    );
    let mut scoped = u.duplicate();
    scoped.owner_construct = construct;
    scoped.owner_qualified_name = owner;
    assert(scoped@ == with_owner(u@, scoped.owner_construct@, scoped.owner_qualified_name@));
    match resolve_feature_reference_with_fuel(t, &scoped, name, Ghost(f)) {
        Some(x) => {
            return Some(x);
        },
        None => {},
    }
    enclosing_namespace_feature(t, scoped.owner_qualified_name.as_str(), name)
}

/// What the feature reference `name` written in `u` resolves to: a unique
/// modifier alias, else the resolution with nothing seen yet.
fn resolve_feature_reference_with_fuel(
    t: &Tables,
    u: &CollectedUsage,
    name: &QualifiedName,
    Ghost(fuel): Ghost<nat>,
) -> (r: Option<String>)
    requires
        specializations_end(inherit_context(t@)),
        feature_ref(t@, u@, name@, fuel) is Some,
    ensures
        feature_ref(t@, u@, name@, fuel) == Some(opt_str_view(r)),
    decreases fuel,
{
    if name.segments.len() == 1 {
        match unique_feature_modifier_alias_match_excluding(
            name.segments[0].as_str(),
            t.local_feature_index,
            t.local_usage_map,
            u.qualified_name.as_str(),
        ) {
            Some(l) => {
                return Some(fid(l.as_str()));
            },
            None => {},
        }
    }
    let mut seen_usages = StrSet::new();
    let mut seen_definitions = StrSet::new();
    proof {
        lemma_empty_seen();
    }
    resolve_feature_reference_with_seen(t, u, name, &mut seen_usages, &mut seen_definitions, Ghost((fuel - 1) as nat))
}

// ---------------------------------------------------------------- entries

/// Resolving the feature reference `name` written in `u` ends.
pub open spec fn feature_ref_ends(t: TablesView, u: CollectedUsageView, name: QualifiedNameView) -> bool {
    exists|f: nat| feature_ref(t, u, name, f) is Some
}

/// What the feature reference `name` written in `u` resolves to.
pub open spec fn feature_ref_value(t: TablesView, u: CollectedUsageView, name: QualifiedNameView) -> Option<Seq<char>> {
    feature_ref(t, u, name, choose|f: nat| feature_ref(t, u, name, f) is Some)->Some_0
}

/// Resolves the feature reference `name` written in `usage` to a feature
/// id: a unique modifier alias, else through the scopes, owners,
/// inheritance and library features around `usage`.
pub fn resolve_feature_reference(t: &Tables, usage: &CollectedUsage, name: &QualifiedName) -> (r: Option<String>)
    requires
        specializations_end(inherit_context(t@)),
        feature_ref_ends(t@, usage@, name@),
    ensures
        opt_str_view(r) == feature_ref_value(t@, usage@, name@),
{
    let ghost f = choose|f: nat| feature_ref(t@, usage@, name@, f) is Some;
    resolve_feature_reference_with_fuel(t, usage, name, Ghost(f))
}

/// Resolving the redefinition `name` written in `u` ends.
pub open spec fn redefinition_ends(t: TablesView, u: CollectedUsageView, name: QualifiedNameView) -> bool {
    exists|f: nat| redefinition(t, u, name, Set::empty(), Set::empty(), f) is Some
}

/// What the redefinition `name` written in `u` resolves to.
pub open spec fn redefinition_value(t: TablesView, u: CollectedUsageView, name: QualifiedNameView) -> Option<Seq<char>> {
    redefinition(
        t,
        u,
        name,
        Set::empty(),
        Set::empty(),
        choose|f: nat| redefinition(t, u, name, Set::empty(), Set::empty(), f) is Some,
    )->Some_0.value
}

/// Resolves the feature that `usage` redefines by `name`.
pub fn resolve_redefinition_feature_reference(t: &Tables, usage: &CollectedUsage, name: &QualifiedName) -> (r: Option<
    String,
>)
    requires
        specializations_end(inherit_context(t@)),
        redefinition_ends(t@, usage@, name@),
    ensures
        opt_str_view(r) == redefinition_value(t@, usage@, name@),
{
    let ghost f = choose|f: nat| redefinition(t@, usage@, name@, Set::empty(), Set::empty(), f) is Some;
    let mut seen_usages = StrSet::new();
    let mut seen_definitions = StrSet::new();
    proof {
        lemma_empty_seen();
    }
    resolve_redefinition_feature_reference_with_seen(t, usage, name, &mut seen_usages, &mut seen_definitions, Ghost(f))
}

/// Resolving the reference target `name` of `u` ends.
pub open spec fn reference_target_ends(t: TablesView, u: CollectedUsageView, name: QualifiedNameView) -> bool {
    exists|f: nat| reference_target(t, u, name, f) is Some
}

/// What the reference target `name` of `u` resolves to.
pub open spec fn reference_target_value(t: TablesView, u: CollectedUsageView, name: QualifiedNameView) -> Option<Seq<char>> {
    reference_target(t, u, name, choose|f: nat| reference_target(t, u, name, f) is Some)->Some_0
}

/// Resolves the reference target `name` of `usage`: as a feature
/// reference from the nearest package, definition, part or action owning
/// `usage`, else as a feature of a namespace enclosing that owner.
pub fn resolve_reference_usage_target(t: &Tables, usage: &CollectedUsage, name: &QualifiedName) -> (r: Option<String>)
    requires
        specializations_end(inherit_context(t@)),
        reference_target_ends(t@, usage@, name@),
    ensures
        opt_str_view(r) == reference_target_value(t@, usage@, name@),
{
    let ghost f = choose|f: nat| reference_target(t@, usage@, name@, f) is Some;
    resolve_reference_usage_target_with_fuel(t, usage, name, Ghost(f))
}

/// Resolving the type of usage `tu` with the usage `q` seen ends.
pub open spec fn typed_through_ends(t: TablesView, tu: CollectedUsageView, q: Seq<char>) -> bool {
    exists|f: nat| usage_type(t, tu, Set::empty().insert(q), Set::empty(), f) is Some
}

/// The qualified name of the definition that types usage `tu`, resolved
/// with the usage `q` seen.
pub open spec fn typed_through_value(t: TablesView, tu: CollectedUsageView, q: Seq<char>) -> Option<Seq<char>> {
    usage_type(
        t,
        tu,
        Set::empty().insert(q),
        Set::empty(),
        choose|f: nat| usage_type(t, tu, Set::empty().insert(q), Set::empty(), f) is Some,
    )->Some_0.value
}

/// Resolves the qualified name of the definition that types `usage`: its
/// own type, else what its reference target, name, redefinitions,
/// subsettings or specializations resolve to give, never exploring the
/// usage `excluded`.
pub fn resolve_usage_type_excluding(t: &Tables, usage: &CollectedUsage, excluded: &str) -> (r: Option<String>)
    requires
        specializations_end(inherit_context(t@)),
        typed_through_ends(t@, usage@, excluded@),
    ensures
        opt_str_view(r) == typed_through_value(t@, usage@, excluded@),
{
    let ghost f = choose|f: nat| usage_type(t@, usage@, Set::empty().insert(excluded@), Set::empty(), f) is Some;
    let mut seen_usages = StrSet::new();
    let mut seen_definitions = StrSet::new();
    proof {
        lemma_empty_seen();
    }
    mark_seen(&mut seen_usages, excluded);
    resolve_collected_usage_type_qualified_name(t, usage, &mut seen_usages, &mut seen_definitions, Ghost(f))
}

} // verus!
