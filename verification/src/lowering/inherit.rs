//! Features found through owners: a feature of an enclosing usage, one
//! named by a modifier alias, and one inherited from a specialized
//! definition.
use vstd::prelude::*;

use crate::kerml::ast::{QualifiedName, QualifiedNameView, strings_view};
use crate::lowering::collect::{CollectedDefinition, CollectedUsage, ImportAliases};
use crate::lowering::context::definition_lookup;
use crate::lowering::features::{
    owner_feature_name, resolve_owner_feature_name, resolve_stdlib_owned_feature_reference, stdlib_owned_feature,
};
use crate::lowering::indexes::usage_lookup;
use crate::lowering::resolve::opt_str_view;
use crate::lowering::types::{resolve_type_reference, type_ref};
use crate::lowering::usage_semantics::strings_contain;
use crate::strmap::{StrMap, StrSet, has_key, lookup};
use crate::text::{is_prefix, owned, strip_prefix_str};

verus! {

// ---------------------------------------------------------------- modifier aliases

/// The first feature of a scope, from the `i`-th on in name order, whose
/// usage carries the modifier `alias`.
pub open spec fn first_alias_feature(
    scope: Seq<(Seq<char>, String)>,
    alias: Seq<char>,
    usages: Seq<(Seq<char>, CollectedUsage)>,
    i: int,
) -> Option<Seq<char>>
    decreases scope.len() - i,
{
    if i < 0 || i >= scope.len() {
        None
    } else if usage_lookup(usages, scope[i].1@) matches Some(u) && u.modifiers.contains(alias) {
        Some(scope[i].1@)
    } else {
        first_alias_feature(scope, alias, usages, i + 1)
    }
}

/// The feature of `owner` that a one-segment name selects as a modifier
/// alias: the first, in name order, whose usage carries that modifier.
pub open spec fn owner_modifier_alias(
    owner: Seq<char>,
    name: QualifiedNameView,
    lfi: Seq<(Seq<char>, StrMap<String>)>,
    usages: Seq<(Seq<char>, CollectedUsage)>,
) -> Option<Seq<char>> {
    if name.segments.len() != 1 {
        None
    } else {
        match lookup(lfi, owner) {
            Some(scope) => first_alias_feature(scope@, name.segments[0], usages, 0),
            None => None,
        }
    }
}

/// Resolves a one-segment name among the features of `owner_qualified_name`
/// as a modifier alias.
pub fn resolve_owner_feature_modifier_alias(
    owner_qualified_name: &str,
    name: &QualifiedName,
    local_feature_index: &StrMap<StrMap<String>>,
    local_usage_map: &StrMap<CollectedUsage>,
) -> (r: Option<String>)
    ensures
        opt_str_view(r) == owner_modifier_alias(owner_qualified_name@, name@, local_feature_index@, local_usage_map@),
{
    if name.segments.len() != 1 {
        return None;
    }
    let alias = name.segments[0].as_str();
    let scope = match local_feature_index.get(owner_qualified_name) {
        Some(s) => s,
        None => {
            return None;
        },
    };
    let n = scope.len();
    let mut i: usize = 0;
    while i < n
        invariant
            n == scope@.len(),
            i <= n,
            lookup(local_feature_index@, owner_qualified_name@) == Some(*scope),
            name@.segments.len() == 1,
            alias@ == name@.segments[0],
            first_alias_feature(scope@, alias@, local_usage_map@, 0) == first_alias_feature(
                scope@,
                alias@,
                local_usage_map@,
                i as int,
            ),
        decreases n - i,
    {
        let q = scope.value_at(i);
        let carries = match local_usage_map.get(q.as_str()) {
            Some(u) => strings_contain(u.modifiers.as_slice(), alias),
            None => false,
        };
        if carries {
            return Some(owned(q.as_str()));
        }
        i = i + 1;
    }
    None
}

// ---------------------------------------------------------------- enclosing usages

/// A name resolved among the features of the usages enclosing `cursor`,
/// innermost first, following at most `fuel` owners: the first owner usage
/// that has the feature; past the last owner usage, the features of the
/// element reached.
pub open spec fn enclosing_feature(
    cursor: Seq<char>,
    name: QualifiedNameView,
    la: Seq<(Seq<char>, QualifiedName)>,
    imp: ImportAliases,
    lfi: Seq<(Seq<char>, StrMap<String>)>,
    usages: Seq<(Seq<char>, CollectedUsage)>,
    fuel: nat,
) -> Option<Option<Seq<char>>>
    decreases fuel,
{
    if fuel == 0 {
        None
    } else {
        match usage_lookup(usages, cursor) {
            Some(u) => match owner_feature_name(u.qualified_name, name, la, imp, lfi) {
                Some(l) => Some(Some(l)),
                None => enclosing_feature(u.owner_qualified_name, name, la, imp, lfi, usages, (fuel - 1) as nat),
            },
            None => Some(owner_feature_name(cursor, name, la, imp, lfi)),
        }
    }
}

/// Once the walk ends, more fuel ends it the same way.
pub proof fn lemma_enclosing_feature_fuel(
    cursor: Seq<char>,
    name: QualifiedNameView,
    la: Seq<(Seq<char>, QualifiedName)>,
    imp: ImportAliases,
    lfi: Seq<(Seq<char>, StrMap<String>)>,
    usages: Seq<(Seq<char>, CollectedUsage)>,
    f1: nat,
    f2: nat,
)
    requires
        f1 <= f2,
        enclosing_feature(cursor, name, la, imp, lfi, usages, f1) is Some,
    ensures
        enclosing_feature(cursor, name, la, imp, lfi, usages, f2) == enclosing_feature(cursor, name, la, imp, lfi, usages, f1),
    decreases f1,
{
    match usage_lookup(usages, cursor) {
        Some(u) => match owner_feature_name(u.qualified_name, name, la, imp, lfi) {
            Some(_) => {},
            None => {
                lemma_enclosing_feature_fuel(
                    u.owner_qualified_name,
                    name,
                    la,
                    imp,
                    lfi,
                    usages,
                    (f1 - 1) as nat,
                    (f2 - 1) as nat,
                );
            },
        },
        None => {},
    }
}

/// Resolves a feature name among the features of the usages enclosing
/// `owner_qualified_name`, innermost first, then of the element past them.
pub fn resolve_enclosing_usage_feature_reference(
    owner_qualified_name: &str,
    name: &QualifiedName,
    local_aliases: &StrMap<QualifiedName>,
    import_aliases: &ImportAliases,
    local_feature_index: &StrMap<StrMap<String>>,
    local_usage_map: &StrMap<CollectedUsage>,
) -> (r: Option<String>)
    requires
        exists|f: nat|
            enclosing_feature(
                owner_qualified_name@,
                name@,
                local_aliases@,
                *import_aliases,
                local_feature_index@,
                local_usage_map@,
                f,
            ) is Some,
    ensures
        forall|f: nat| #[trigger]
            enclosing_feature(
                owner_qualified_name@,
                name@,
                local_aliases@,
                *import_aliases,
                local_feature_index@,
                local_usage_map@,
                f,
            ) matches Some(v) ==> opt_str_view(r) == v,
{
    let ghost imp = *import_aliases;
    let ghost f0 = choose|f: nat|
        enclosing_feature(owner_qualified_name@, name@, local_aliases@, imp, local_feature_index@, local_usage_map@, f)
            is Some;
    let ghost target = enclosing_feature(
        owner_qualified_name@,
        name@,
        local_aliases@,
        imp,
        local_feature_index@,
        local_usage_map@,
        f0,
    )->Some_0;
    let mut cursor = owned(owner_qualified_name);
    let ghost mut fuel: nat = f0;
    let mut r: Option<String> = None;
    loop
        invariant
            imp == *import_aliases,
            enclosing_feature(cursor@, name@, local_aliases@, imp, local_feature_index@, local_usage_map@, fuel) == Some(
                target,
            ),
        ensures
            opt_str_view(r) == target,
        decreases fuel,
    {
        match local_usage_map.get(cursor.as_str()) {
            Some(owner_usage) => {
                match resolve_owner_feature_name(
                    owner_usage.qualified_name.as_str(),
                    name,
                    local_aliases,
                    import_aliases,
                    local_feature_index,
                ) {
                    Some(local) => {
                        r = Some(local);
                        break;
                    },
                    None => {},
                }
                cursor = owned(owner_usage.owner_qualified_name.as_str());
                proof {
                    fuel = (fuel - 1) as nat;
                }
            },
            None => {
                r = resolve_owner_feature_name(cursor.as_str(), name, local_aliases, import_aliases, local_feature_index);
                break;
            },
        }
    }
    proof {
        assert forall|g: nat| #[trigger]
            enclosing_feature(owner_qualified_name@, name@, local_aliases@, imp, local_feature_index@, local_usage_map@, g)
                is Some implies opt_str_view(r) == enclosing_feature(
                owner_qualified_name@,
                name@,
                local_aliases@,
                imp,
                local_feature_index@,
                local_usage_map@,
                g,
            )->Some_0 by {
            if g <= f0 {
                lemma_enclosing_feature_fuel(
                    owner_qualified_name@,
                    name@,
                    local_aliases@,
                    imp,
                    local_feature_index@,
                    local_usage_map@,
                    g,
                    f0,
                );
            } else {
                lemma_enclosing_feature_fuel(
                    owner_qualified_name@,
                    name@,
                    local_aliases@,
                    imp,
                    local_feature_index@,
                    local_usage_map@,
                    f0,
                    g,
                );
            }
        }
    }
    r
}


// ---------------------------------------------------------------- inherited from definitions

/// What resolving an inherited feature reads: the library ids, aliases and
/// feature index, the module's definitions (by name and as collected), its
/// aliases, imports and feature index.
pub struct InheritContext {
    pub ids: Seq<Seq<char>>,
    pub stdlib_aliases: Seq<(Seq<char>, String)>,
    pub stdlib_features: Seq<(Seq<char>, StrMap<String>)>,
    pub local_definitions: Seq<(Seq<char>, String)>,
    pub local_aliases: Seq<(Seq<char>, QualifiedName)>,
    pub imports: ImportAliases,
    pub definition_index: Seq<(Seq<char>, CollectedDefinition)>,
    pub local_features: Seq<(Seq<char>, StrMap<String>)>,
}

/// Resolving type name `n` ends.
pub open spec fn type_ends(c: InheritContext, n: QualifiedNameView) -> bool {
    exists|f: nat| type_ref(n, c.ids, c.stdlib_aliases, c.local_definitions, c.local_aliases, c.imports, f) is Some
}

/// The type id that type name `n` resolves to.
pub open spec fn type_value(c: InheritContext, n: QualifiedNameView) -> Option<Seq<char>> {
    type_ref(
        n,
        c.ids,
        c.stdlib_aliases,
        c.local_definitions,
        c.local_aliases,
        c.imports,
        choose|f: nat| type_ref(n, c.ids, c.stdlib_aliases, c.local_definitions, c.local_aliases, c.imports, f) is Some,
    )->Some_0
}

/// Resolving each type that a definition of the index specializes ends.
pub open spec fn specializations_end(c: InheritContext) -> bool {
    forall|k: Seq<char>, j: int|
        #![trigger definition_lookup(c.definition_index, k), type_ends(c, definition_lookup(c.definition_index, k)->Some_0.specializes[j])]
        definition_lookup(c.definition_index, k) is Some && 0 <= j < definition_lookup(
            c.definition_index,
            k,
        )->Some_0.specializes.len() ==> type_ends(c, definition_lookup(c.definition_index, k)->Some_0.specializes[j])
}

/// How many of `keys` are not in `seen`.
pub open spec fn unseen(keys: Seq<Seq<char>>, seen: Set<Seq<char>>) -> nat
    decreases keys.len(),
{
    if keys.len() == 0 {
        0
    } else {
        unseen(keys.drop_last(), seen) + if seen.contains(keys.last()) {
            0nat
        } else {
            1nat
        }
    }
}

/// Seeing more leaves no more unseen.
pub proof fn lemma_unseen_monotone(keys: Seq<Seq<char>>, a: Set<Seq<char>>, b: Set<Seq<char>>)
    requires
        a.subset_of(b),
    ensures
        unseen(keys, b) <= unseen(keys, a),
    decreases keys.len(),
{
    if keys.len() > 0 {
        lemma_unseen_monotone(keys.drop_last(), a, b);
    }
}

/// Seeing a key not seen before leaves fewer unseen.
pub proof fn lemma_unseen_insert(keys: Seq<Seq<char>>, seen: Set<Seq<char>>, k: Seq<char>)
    requires
        keys.contains(k),
        !seen.contains(k),
    ensures
        unseen(keys, seen.insert(k)) < unseen(keys, seen),
    decreases keys.len(),
{
    lemma_unseen_monotone(keys.drop_last(), seen, seen.insert(k));
    if keys.last() != k {
        let i = choose|i: int| 0 <= i < keys.len() && keys[i] == k;
        assert(keys.drop_last()[i] == k);
        lemma_unseen_insert(keys.drop_last(), seen, k);
    }
}

/// The qualified names of the definitions in the index.
pub open spec fn definition_keys(c: InheritContext) -> Seq<Seq<char>> {
    c.definition_index.map_values(|e: (Seq<char>, CollectedDefinition)| e.0)
}

/// A feature that `owner` inherits through the definitions it
/// specializes, in order, each explored once: first among a local parent's
/// own features, then among what that parent inherits; a library parent's
/// feature by its simple name. With the owners seen so far.
pub open spec fn inherited_feature(
    c: InheritContext,
    owner: Seq<char>,
    name: QualifiedNameView,
    seen: Set<Seq<char>>,
) -> (Option<Seq<char>>, Set<Seq<char>>)
    decreases unseen(definition_keys(c), seen), 0nat,
{
    if seen.contains(owner) {
        (None, seen)
    } else {
        let seen1 = seen.insert(owner);
        match definition_lookup(c.definition_index, owner) {
            None => (None, seen1),
            Some(d) => {
                proof {
                    assert(has_key(c.definition_index, owner));
                    let i = choose|i: int| 0 <= i < c.definition_index.len() && (#[trigger] c.definition_index[i]).0 == owner;
                    assert(definition_keys(c)[i] == owner);
                    lemma_unseen_insert(definition_keys(c), seen, owner);
                }
                inherited_from_parents(c, d.specializes, 0, name, seen1)
            },
        }
    }
}

/// A feature inherited through the parents from the `i`-th on, in order.
pub open spec fn inherited_from_parents(
    c: InheritContext,
    parents: Seq<QualifiedNameView>,
    i: int,
    name: QualifiedNameView,
    seen: Set<Seq<char>>,
) -> (Option<Seq<char>>, Set<Seq<char>>)
    decreases unseen(definition_keys(c), seen), parents.len() - i + 1,
{
    if i < 0 || i >= parents.len() {
        (None, seen)
    } else {
        match type_value(c, parents[i]) {
            None => inherited_from_parents(c, parents, i + 1, name, seen),
            Some(pid) => if is_prefix("type."@, pid) {
                let pq = pid.skip(5);
                match owner_feature_name(pq, name, c.local_aliases, c.imports, c.local_features) {
                    Some(l) => (Some(l), seen),
                    None => {
                        let (r, s2) = inherited_feature(c, pq, name, seen);
                        match r {
                            Some(x) => (Some(x), s2),
                            None => {
                                proof {
                                    lemma_unseen_monotone(definition_keys(c), seen, s2.union(seen));
                                }
                                inherited_from_parents(c, parents, i + 1, name, s2.union(seen))
                            },
                        }
                    },
                }
            } else {
                match stdlib_owned_feature(pid, name, c.stdlib_features) {
                    Some(x) => (Some(x), seen),
                    None => inherited_from_parents(c, parents, i + 1, name, seen),
                }
            },
        }
    }
}

/// The keys of a set of strings, as a set.
pub open spec fn key_set(s: Seq<(Seq<char>, ())>) -> Set<Seq<char>> {
    Set::new(|k: Seq<char>| has_key(s, k))
}

/// Resolves a feature that `owner_qualified_name` inherits through the
/// definitions it specializes, exploring each definition once; `seen`
/// gathers the definitions explored.
pub fn resolve_inherited_definition_feature_reference(
    owner_qualified_name: &str,
    name: &QualifiedName,
    stdlib_ids: &[String],
    stdlib_feature_index: &StrMap<StrMap<String>>,
    stdlib_aliases: &StrMap<String>,
    local_definitions: &StrMap<String>,
    local_aliases: &StrMap<QualifiedName>,
    import_aliases: &ImportAliases,
    definition_index: &StrMap<CollectedDefinition>,
    local_feature_index: &StrMap<StrMap<String>>,
    seen: &mut StrSet,
) -> (r: Option<String>)
    requires
        specializations_end(
            InheritContext {
                ids: strings_view(stdlib_ids@),
                stdlib_aliases: stdlib_aliases@,
                stdlib_features: stdlib_feature_index@,
                local_definitions: local_definitions@,
                local_aliases: local_aliases@,
                imports: *import_aliases,
                definition_index: definition_index@,
                local_features: local_feature_index@,
            },
        ),
    ensures
        ({
            let c = InheritContext {
                ids: strings_view(stdlib_ids@),
                stdlib_aliases: stdlib_aliases@,
                stdlib_features: stdlib_feature_index@,
                local_definitions: local_definitions@,
                local_aliases: local_aliases@,
                imports: *import_aliases,
                definition_index: definition_index@,
                local_features: local_feature_index@,
            };
            (opt_str_view(r), key_set(final(seen)@)) == inherited_feature(c, owner_qualified_name@, name@, key_set(old(seen)@))
        }),
        key_set(old(seen)@).subset_of(key_set(final(seen)@)),
    decreases unseen(definition_keys(InheritContext {
                ids: strings_view(stdlib_ids@),
                stdlib_aliases: stdlib_aliases@,
                stdlib_features: stdlib_feature_index@,
                local_definitions: local_definitions@,
                local_aliases: local_aliases@,
                imports: *import_aliases,
                definition_index: definition_index@,
                local_features: local_feature_index@,
            }), key_set(seen@)),
{
    let ghost c = InheritContext {
        ids: strings_view(stdlib_ids@),
        stdlib_aliases: stdlib_aliases@,
        stdlib_features: stdlib_feature_index@,
        local_definitions: local_definitions@,
        local_aliases: local_aliases@,
        imports: *import_aliases,
        definition_index: definition_index@,
        local_features: local_feature_index@,
    };
    let ghost s0 = key_set(seen@);
    if seen.contains_key(owner_qualified_name) {
        assert(s0.contains(owner_qualified_name@));
        return None;
    }
    let ghost before = seen@;
    seen.insert(owned(owner_qualified_name), ());
    let ghost s1 = key_set(seen@);
    proof {
        assert forall|k: Seq<char>| s1.contains(k) == s0.insert(owner_qualified_name@).contains(k) by {
            assert(has_key(seen@, k) == (lookup(seen@, k) is Some));
            assert(has_key(before, k) == (lookup(before, k) is Some));
        }
        assert(s1 =~= s0.insert(owner_qualified_name@));
    }
    let definition = match definition_index.get(owner_qualified_name) {
        Some(d) => d,
        None => {
            return None;
        },
    };
    let ghost parents = definition@.specializes;
    proof {
        assert(definition_lookup(c.definition_index, owner_qualified_name@) == Some(definition@));
        assert(has_key(c.definition_index, owner_qualified_name@));
        let i = choose|i: int| 0 <= i < c.definition_index.len() && (#[trigger] c.definition_index[i]).0 == owner_qualified_name@;
        assert(definition_keys(c)[i] == owner_qualified_name@);
        lemma_unseen_insert(definition_keys(c), s0, owner_qualified_name@);
    }
    assert(inherited_feature(c, owner_qualified_name@, name@, s0) == inherited_from_parents(c, parents, 0, name@, s1));
    let n = definition.specializes.len();
    let mut i: usize = 0;
    while i < n
        invariant
            n == parents.len(),
            parents == definition@.specializes,
            definition_lookup(c.definition_index, owner_qualified_name@) == Some(definition@),
            c == (InheritContext {
                ids: strings_view(stdlib_ids@),
                stdlib_aliases: stdlib_aliases@,
                stdlib_features: stdlib_feature_index@,
                local_definitions: local_definitions@,
                local_aliases: local_aliases@,
                imports: *import_aliases,
                definition_index: definition_index@,
                local_features: local_feature_index@,
            }),
            specializations_end(c),
            i <= n,
            s0 == key_set(old(seen)@),
            inherited_feature(c, owner_qualified_name@, name@, s0) == inherited_from_parents(c, parents, 0, name@, s1),
            s1.subset_of(key_set(seen@)),
            s0.subset_of(s1),
            unseen(definition_keys(c), s1) < unseen(definition_keys(c), s0),
            inherited_from_parents(c, parents, 0, name@, s1) == inherited_from_parents(
                c,
                parents,
                i as int,
                name@,
                key_set(seen@),
            ),
        decreases n - i,
    {
        let parent = &definition.specializes[i];
        assert(parent@ == parents[i as int]);
        assert(type_ends(c, definition_lookup(c.definition_index, owner_qualified_name@)->Some_0.specializes[i as int]));
        let parent_id = match resolve_type_reference(
            parent,
            stdlib_ids,
            stdlib_aliases,
            local_definitions,
            local_aliases,
            import_aliases,
        ) {
            Some(p) => p,
            None => {
                i = i + 1;
                continue;
            },
        };
        proof {
            reveal_strlit("type.");
        }
        match strip_prefix_str(parent_id.as_str(), "type.") {
            None => {
                match resolve_stdlib_owned_feature_reference(parent_id.as_str(), name, stdlib_feature_index) {
                    Some(inherited) => {
                        return Some(inherited);
                    },
                    None => {},
                }
            },
            Some(parent_qualified_name) => {
                match resolve_owner_feature_name(
                    parent_qualified_name.as_str(),
                    name,
                    local_aliases,
                    import_aliases,
                    local_feature_index,
                ) {
                    Some(local) => {
                        return Some(local);
                    },
                    None => {},
                }
                let ghost sb = key_set(seen@);
                proof {
                    lemma_unseen_monotone(definition_keys(c), s1, sb);
                }
                match resolve_inherited_definition_feature_reference(
                    parent_qualified_name.as_str(),
                    name,
                    stdlib_ids,
                    stdlib_feature_index,
                    stdlib_aliases,
                    local_definitions,
                    local_aliases,
                    import_aliases,
                    definition_index,
                    local_feature_index,
                    seen,
                ) {
                    Some(inherited) => {
                        return Some(inherited);
                    },
                    None => {},
                }
                proof {
                    assert(key_set(seen@).union(sb) =~= key_set(seen@));
                }
            },
        }
        i = i + 1;
    }
    None
}

} // verus!
