//! Resolution of type references: a name as written, looked up among the
//! module's own definitions and aliases, the names its imports bring in,
//! and the library.
//!
//! Aliases may name other aliases, so resolution follows chains of them;
//! the specifications count the steps taken with a `fuel` argument and
//! give `None` when it runs out. A chain of aliases that leads back to
//! itself never resolves, and the functions here ask that some fuel be
//! enough.
use vstd::prelude::*;

use crate::kerml::ast::{QualifiedName, QualifiedNameView, join_colon, join_dot, strings_view};
use crate::lowering::collect::ImportAliases;
use crate::lowering::names::{expand_import_namespace_prefix, expanded_name};
use crate::lowering::resolve::{
    dotted_match, local_matches_upto, opt_str_view, suffix_matches_upto, unconjugated,
    unconjugated_type_name, unique, unique_local_suffix_match, unique_suffix_match,
};
use crate::strmap::{StrMap, lookup, str_lookup};
use crate::text::{concat2, concat3, contains_char, ends_with, last_index, lemma_last_index, owned, rsplit_once_str, str_eq};

verus! {

// ------------------------------------------------------------ scopes

/// The scopes from `cursor` outwards: `cursor` itself, then each part
/// before its last `.`, ending with a part that has no `.`.
pub open spec fn cursor_chain(cursor: Seq<char>) -> Seq<Seq<char>>
    decreases cursor.len(),
{
    match last_index(cursor, "."@) {
        Some(i) => if 0 <= i < cursor.len() {
            seq![cursor] + cursor_chain(cursor.take(i))
        } else {
            seq![cursor]
        },
        None => seq![cursor],
    }
}

/// The value `map` gives the first `scope.tail` along `chain`.
pub open spec fn first_in_scope(chain: Seq<Seq<char>>, tail: Seq<char>, map: Seq<(Seq<char>, String)>) -> Option<
    Seq<char>,
>
    decreases chain.len(),
{
    if chain.len() == 0 {
        None
    } else {
        match str_lookup(map, chain[0] + "."@ + tail) {
            Some(v) => Some(v),
            None => first_in_scope(chain.drop_first(), tail, map),
        }
    }
}

/// The value `map` gives `scope.tail` for the innermost scope around
/// `owner` (itself included) that has one.
fn lookup_in_scopes(owner: &str, tail: &str, map: &StrMap<String>) -> (r: Option<String>)
    ensures
        opt_str_view(r) == first_in_scope(cursor_chain(owner@), tail@, map@),
{
    let mut cursor = owned(owner);
    loop
        invariant
            first_in_scope(cursor_chain(owner@), tail@, map@) == first_in_scope(
                cursor_chain(cursor@),
                tail@,
                map@,
            ),
        decreases cursor@.len(),
    {
        let candidate = concat3(cursor.as_str(), ".", tail);
        proof {
            reveal_strlit(".");
            lemma_last_index(cursor@, "."@);
            assert(cursor_chain(cursor@)[0] == cursor@);
        }
        match map.get(candidate.as_str()) {
            Some(v) => {
                return Some(owned(v.as_str()));
            },
            None => {},
        }
        match rsplit_once_str(cursor.as_str(), ".") {
            Some((parent, _)) => {
                proof {
                    assert(cursor_chain(cursor@).drop_first() =~= cursor_chain(parent@));
                }
                cursor = parent;
            },
            None => {
                proof {
                    let chain = cursor_chain(cursor@);
                    assert(chain =~= seq![cursor@]);
                    assert(str_lookup(map@, chain[0] + "."@ + tail@) is None);
                    assert(chain.drop_first() =~= Seq::<Seq<char>>::empty());
                    assert(first_in_scope(chain.drop_first(), tail@, map@) is None);
                }
                return None;
            },
        }
    }
}

/// Whether `ids` holds `x`.
fn contains_id(ids: &[String], x: &str) -> (r: bool)
    ensures
        r == strings_view(ids@).contains(x@),
{
    let mut i: usize = 0;
    while i < ids.len()
        invariant
            i <= ids@.len(),
            forall|j: int| 0 <= j < i ==> (#[trigger] ids@[j])@ != x@,
        decreases ids@.len() - i,
    {
        if str_eq(ids[i].as_str(), x) {
            assert(strings_view(ids@)[i as int] == x@);
            return true;
        }
        i = i + 1;
    }
    false
}

// ------------------------------------------------------------ one step

/// A name taken as written: a library alias or id by its `::` form, else a
/// local definition by its `.` form.
pub open spec fn explicit_type_ref(
    name: QualifiedNameView,
    ids: Seq<Seq<char>>,
    sa: Seq<(Seq<char>, String)>,
    defs: Seq<(Seq<char>, String)>,
) -> Option<Seq<char>> {
    let colon = join_colon(name.segments);
    match str_lookup(sa, colon) {
        Some(a) => Some(a),
        None => if ids.contains(colon) {
            Some(colon)
        } else {
            str_lookup(defs, join_dot(name.segments))
        },
    }
}

/// Resolves a name as written: a library alias or id, else a local
/// definition.
pub fn resolve_explicit_type_reference(
    name: &QualifiedName,
    stdlib_ids: &[String],
    stdlib_aliases: &StrMap<String>,
    local_definitions: &StrMap<String>,
) -> (r: Option<String>)
    ensures
        opt_str_view(r) == explicit_type_ref(name@, strings_view(stdlib_ids@), stdlib_aliases@, local_definitions@),
{
    let colon = name.as_colon_string();
    match stdlib_aliases.get(colon.as_str()) {
        Some(a) => {
            return Some(owned(a.as_str()));
        },
        None => {},
    }
    if contains_id(stdlib_ids, colon.as_str()) {
        return Some(colon);
    }
    let dot = name.as_dot_string();
    match local_definitions.get(dot.as_str()) {
        Some(l) => Some(owned(l.as_str())),
        None => None,
    }
}

/// A name resolved as a local definition under the scopes around its owner.
pub open spec fn scoped_local_type_ref(name: QualifiedNameView, owner: Seq<char>, defs: Seq<(Seq<char>, String)>) -> Option<
    Seq<char>,
> {
    first_in_scope(cursor_chain(owner), join_dot(name.segments), defs)
}

/// Resolves a name as a local definition declared in the scope of `owner`
/// or one around it, innermost first.
pub fn resolve_scoped_local_type_reference(
    name: &QualifiedName,
    owner_qualified_name: &str,
    local_definitions: &StrMap<String>,
) -> (r: Option<String>)
    ensures
        opt_str_view(r) == scoped_local_type_ref(name@, owner_qualified_name@, local_definitions@),
{
    let dotted = name.as_dot_string();
    lookup_in_scopes(owner_qualified_name, dotted.as_str(), local_definitions)
}

/// A simple name resolved as a value imported into a scope around its owner.
pub open spec fn scoped_value_alias(name: QualifiedNameView, owner: Seq<char>, va: Seq<(Seq<char>, String)>) -> Option<
    Seq<char>,
> {
    if name.segments.len() != 1 {
        None
    } else {
        first_in_scope(cursor_chain(owner), name.segments[0], va)
    }
}

/// Resolves a simple name as a value imported into the scope of `owner` or
/// one around it, innermost first.
pub fn resolve_scoped_import_value_alias(
    name: &QualifiedName,
    owner_qualified_name: &str,
    import_aliases: &ImportAliases,
) -> (r: Option<String>)
    ensures
        opt_str_view(r) == scoped_value_alias(name@, owner_qualified_name@, import_aliases.value_aliases@),
{
    if name.segments.len() != 1 {
        return None;
    }
    lookup_in_scopes(owner_qualified_name, name.segments[0].as_str(), &import_aliases.value_aliases)
}

/// The targets of the aliases among the first `n` whose qualified name is,
/// or ends with, `dotted`.
pub open spec fn alias_matches_upto(la: Seq<(Seq<char>, QualifiedName)>, dotted: Seq<char>, n: int) -> Seq<
    QualifiedName,
>
    decreases n,
{
    if n <= 0 {
        Seq::empty()
    } else if dotted_match(la[n - 1].0, dotted) {
        alias_matches_upto(la, dotted, n - 1).push(la[n - 1].1)
    } else {
        alias_matches_upto(la, dotted, n - 1)
    }
}

/// The one alias target whose alias is, or ends with, `dotted`.
pub open spec fn unique_alias_match(la: Seq<(Seq<char>, QualifiedName)>, dotted: Seq<char>) -> Option<QualifiedName> {
    let ms = alias_matches_upto(la, dotted, la.len() as int);
    if ms.len() == 1 {
        Some(ms[0])
    } else {
        None
    }
}

/// The target of the one local alias whose qualified name is, or ends
/// with, `dotted_name`.
pub fn unique_local_alias_suffix_match(dotted_name: &str, local_aliases: &StrMap<QualifiedName>) -> (r: Option<
    QualifiedName,
>)
    ensures
        match r {
            Some(q) => unique_alias_match(local_aliases@, dotted_name@) matches Some(t) && q@ == t@,
            None => unique_alias_match(local_aliases@, dotted_name@) is None,
        },
{
    let suffix = concat2(".", dotted_name);
    let n = local_aliases.len();
    let mut count: usize = 0;
    let mut first: Option<usize> = None;
    let mut i: usize = 0;
    while i < n
        invariant
            n == local_aliases@.len(),
            i <= n,
            suffix@ == "."@ + dotted_name@,
            count == alias_matches_upto(local_aliases@, dotted_name@, i as int).len(),
            count <= i,
            match first {
                Some(j) => count > 0 && j < n && alias_matches_upto(local_aliases@, dotted_name@, i as int)[0]
                    == local_aliases@[j as int].1,
                None => count == 0,
            },
        decreases n - i,
    {
        let key = local_aliases.key_at(i).as_str();
        if str_eq(key, dotted_name) || ends_with(key, suffix.as_str()) {
            if count == 0 {
                first = Some(i);
            }
            count = count + 1;
        }
        i = i + 1;
    }
    if count == 1 {
        match first {
            Some(j) => Some(local_aliases.value_at(j).copy()),
            None => None,
        }
    } else {
        None
    }
}

// ------------------------------------------------------------ chains

/// A name resolved as a qualified reference, following local aliases for
/// at most `fuel` steps: a library alias or id, a local definition or the
/// one ending with the name, the target of a local alias (or of the one
/// ending with the name), or for a simple name the one library id ending
/// with it.
pub open spec fn qualified_ref(
    name: QualifiedNameView,
    ids: Seq<Seq<char>>,
    sa: Seq<(Seq<char>, String)>,
    defs: Seq<(Seq<char>, String)>,
    la: Seq<(Seq<char>, QualifiedName)>,
    fuel: nat,
) -> Option<Option<Seq<char>>>
    decreases fuel,
{
    if fuel == 0 {
        None
    } else {
        let colon = join_colon(name.segments);
        let dot = join_dot(name.segments);
        if str_lookup(sa, colon) is Some {
            Some(str_lookup(sa, colon))
        } else if ids.contains(colon) {
            Some(Some(colon))
        } else if str_lookup(defs, dot) is Some {
            Some(str_lookup(defs, dot))
        } else if unique(local_matches_upto(defs, dot, defs.len() as int)) is Some {
            Some(unique(local_matches_upto(defs, dot, defs.len() as int)))
        } else {
            match lookup(la, dot) {
                Some(t) => qualified_ref(t@, ids, sa, defs, la, (fuel - 1) as nat),
                None => match unique_alias_match(la, dot) {
                    Some(t) => qualified_ref(t@, ids, sa, defs, la, (fuel - 1) as nat),
                    None => if name.segments.len() == 1 {
                        Some(unique(suffix_matches_upto(ids, name.segments[0], ids.len() as int)))
                    } else {
                        Some(None)
                    },
                },
            }
        }
    }
}

/// A name resolved as visible from anywhere in the module, following
/// aliases for at most `fuel` steps.
pub open spec fn visible_type_ref(
    name: QualifiedNameView,
    ids: Seq<Seq<char>>,
    sa: Seq<(Seq<char>, String)>,
    defs: Seq<(Seq<char>, String)>,
    la: Seq<(Seq<char>, QualifiedName)>,
    imp: ImportAliases,
    fuel: nat,
) -> Option<Option<Seq<char>>>
    decreases fuel,
{
    if fuel == 0 {
        None
    } else if name.segments.len() == 1 {
        let simple = name.segments[0];
        match lookup(la, simple) {
            Some(t) => visible_type_ref(t@, ids, sa, defs, la, imp, (fuel - 1) as nat),
            None => if str_lookup(imp.value_aliases@, simple) is Some {
                Some(str_lookup(imp.value_aliases@, simple))
            } else if str_lookup(sa, simple) is Some {
                Some(str_lookup(sa, simple))
            } else {
                Some(unique(suffix_matches_upto(ids, simple, ids.len() as int)))
            },
        }
    } else {
        match expanded_name(name, la, imp.namespace_aliases@) {
            Some(e) => visible_type_ref(e, ids, sa, defs, la, imp, (fuel - 1) as nat),
            None => if str_lookup(imp.value_aliases@, join_dot(name.segments)) is Some {
                Some(str_lookup(imp.value_aliases@, join_dot(name.segments)))
            } else {
                Some(explicit_type_ref(name, ids, sa, defs))
            },
        }
    }
}

/// A type reference resolved, following aliases for at most `fuel` steps:
/// a conjugated name as the name it conjugates; a simple name as a local
/// definition, a local alias's target, an imported value, a library alias,
/// or the one library id ending with it; a longer name through its
/// namespace alias, a local alias (or the one ending with it), an imported
/// value, or as a qualified reference.
pub open spec fn type_ref(
    name: QualifiedNameView,
    ids: Seq<Seq<char>>,
    sa: Seq<(Seq<char>, String)>,
    defs: Seq<(Seq<char>, String)>,
    la: Seq<(Seq<char>, QualifiedName)>,
    imp: ImportAliases,
    fuel: nat,
) -> Option<Option<Seq<char>>>
    decreases fuel,
{
    if fuel == 0 {
        None
    } else {
        match unconjugated(name) {
            Some(u) => type_ref(u, ids, sa, defs, la, imp, (fuel - 1) as nat),
            None => if name.segments.len() == 1 {
                let simple = name.segments[0];
                if str_lookup(defs, simple) is Some {
                    Some(str_lookup(defs, simple))
                } else {
                    match lookup(la, simple) {
                        Some(t) => type_ref(t@, ids, sa, defs, la, imp, (fuel - 1) as nat),
                        None => if str_lookup(imp.value_aliases@, simple) is Some {
                            Some(str_lookup(imp.value_aliases@, simple))
                        } else if str_lookup(sa, simple) is Some {
                            Some(str_lookup(sa, simple))
                        } else {
                            Some(unique(suffix_matches_upto(ids, simple, ids.len() as int)))
                        },
                    }
                }
            } else {
                let dot = join_dot(name.segments);
                match expanded_name(name, la, imp.namespace_aliases@) {
                    Some(e) => type_ref(e, ids, sa, defs, la, imp, (fuel - 1) as nat),
                    None => match lookup(la, dot) {
                        Some(t) => type_ref(t@, ids, sa, defs, la, imp, (fuel - 1) as nat),
                        None => match unique_alias_match(la, dot) {
                            Some(t) => type_ref(t@, ids, sa, defs, la, imp, (fuel - 1) as nat),
                            None => if str_lookup(imp.value_aliases@, dot) is Some {
                                Some(str_lookup(imp.value_aliases@, dot))
                            } else {
                                qualified_ref(name, ids, sa, defs, la, fuel)
                            },
                        },
                    },
                }
            }
        }
    }
}

/// A type reference written in the scope of `owner`, resolved: a
/// conjugated name as the name it conjugates; else a local definition in a
/// scope around the owner, a value imported into one, or a name visible
/// from anywhere.
pub open spec fn scoped_type_ref(
    name: QualifiedNameView,
    owner: Seq<char>,
    ids: Seq<Seq<char>>,
    sa: Seq<(Seq<char>, String)>,
    defs: Seq<(Seq<char>, String)>,
    la: Seq<(Seq<char>, QualifiedName)>,
    imp: ImportAliases,
    fuel: nat,
) -> Option<Option<Seq<char>>>
    decreases fuel,
{
    if fuel == 0 {
        None
    } else {
        match unconjugated(name) {
            Some(u) => scoped_type_ref(u, owner, ids, sa, defs, la, imp, (fuel - 1) as nat),
            None => match scoped_local_type_ref(name, owner, defs) {
                Some(l) => Some(Some(l)),
                None => match scoped_value_alias(name, owner, imp.value_aliases@) {
                    Some(v) => Some(Some(v)),
                    None => visible_type_ref(name, ids, sa, defs, la, imp, fuel),
                },
            },
        }
    }
}


// ------------------------------------------------------------ fuel

/// Once a qualified reference resolves, more fuel resolves it the same way.
pub proof fn lemma_qualified_ref_fuel(
    name: QualifiedNameView,
    ids: Seq<Seq<char>>,
    sa: Seq<(Seq<char>, String)>,
    defs: Seq<(Seq<char>, String)>,
    la: Seq<(Seq<char>, QualifiedName)>,
    f1: nat,
    f2: nat,
)
    requires
        f1 <= f2,
        qualified_ref(name, ids, sa, defs, la, f1) is Some,
    ensures
        qualified_ref(name, ids, sa, defs, la, f2) == qualified_ref(name, ids, sa, defs, la, f1),
    decreases f1,
{
    let dot = join_dot(name.segments);
    let colon = join_colon(name.segments);
    if !(str_lookup(sa, colon) is Some || ids.contains(colon) || str_lookup(defs, dot) is Some || unique(
        local_matches_upto(defs, dot, defs.len() as int),
    ) is Some) {
        match lookup(la, dot) {
            Some(t) => {
                lemma_qualified_ref_fuel(t@, ids, sa, defs, la, (f1 - 1) as nat, (f2 - 1) as nat);
            },
            None => match unique_alias_match(la, dot) {
                Some(t) => {
                    lemma_qualified_ref_fuel(t@, ids, sa, defs, la, (f1 - 1) as nat, (f2 - 1) as nat);
                },
                None => {},
            },
        }
    }
}

/// Once a name visible from anywhere resolves, more fuel resolves it the
/// same way.
pub proof fn lemma_visible_type_ref_fuel(
    name: QualifiedNameView,
    ids: Seq<Seq<char>>,
    sa: Seq<(Seq<char>, String)>,
    defs: Seq<(Seq<char>, String)>,
    la: Seq<(Seq<char>, QualifiedName)>,
    imp: ImportAliases,
    f1: nat,
    f2: nat,
)
    requires
        f1 <= f2,
        visible_type_ref(name, ids, sa, defs, la, imp, f1) is Some,
    ensures
        visible_type_ref(name, ids, sa, defs, la, imp, f2) == visible_type_ref(name, ids, sa, defs, la, imp, f1),
    decreases f1,
{
    if name.segments.len() == 1 {
        match lookup(la, name.segments[0]) {
            Some(t) => {
                lemma_visible_type_ref_fuel(t@, ids, sa, defs, la, imp, (f1 - 1) as nat, (f2 - 1) as nat);
            },
            None => {},
        }
    } else {
        match expanded_name(name, la, imp.namespace_aliases@) {
            Some(e) => {
                lemma_visible_type_ref_fuel(e, ids, sa, defs, la, imp, (f1 - 1) as nat, (f2 - 1) as nat);
            },
            None => {},
        }
    }
}

/// Once a type reference resolves, more fuel resolves it the same way.
pub proof fn lemma_type_ref_fuel(
    name: QualifiedNameView,
    ids: Seq<Seq<char>>,
    sa: Seq<(Seq<char>, String)>,
    defs: Seq<(Seq<char>, String)>,
    la: Seq<(Seq<char>, QualifiedName)>,
    imp: ImportAliases,
    f1: nat,
    f2: nat,
)
    requires
        f1 <= f2,
        type_ref(name, ids, sa, defs, la, imp, f1) is Some,
    ensures
        type_ref(name, ids, sa, defs, la, imp, f2) == type_ref(name, ids, sa, defs, la, imp, f1),
    decreases f1,
{
    let dot = join_dot(name.segments);
    match unconjugated(name) {
        Some(u) => {
            lemma_type_ref_fuel(u, ids, sa, defs, la, imp, (f1 - 1) as nat, (f2 - 1) as nat);
        },
        None => if name.segments.len() == 1 {
            if str_lookup(defs, name.segments[0]) is None {
                match lookup(la, name.segments[0]) {
                    Some(t) => {
                        lemma_type_ref_fuel(t@, ids, sa, defs, la, imp, (f1 - 1) as nat, (f2 - 1) as nat);
                    },
                    None => {},
                }
            }
        } else {
            match expanded_name(name, la, imp.namespace_aliases@) {
                Some(e) => {
                    lemma_type_ref_fuel(e, ids, sa, defs, la, imp, (f1 - 1) as nat, (f2 - 1) as nat);
                },
                None => match lookup(la, dot) {
                    Some(t) => {
                        lemma_type_ref_fuel(t@, ids, sa, defs, la, imp, (f1 - 1) as nat, (f2 - 1) as nat);
                    },
                    None => match unique_alias_match(la, dot) {
                        Some(t) => {
                            lemma_type_ref_fuel(t@, ids, sa, defs, la, imp, (f1 - 1) as nat, (f2 - 1) as nat);
                        },
                        None => {
                            if qualified_ref(name, ids, sa, defs, la, f1) is Some {
                                lemma_qualified_ref_fuel(name, ids, sa, defs, la, f1, f2);
                            }
                        },
                    },
                },
            }
        },
    }
}

/// Once a scoped type reference resolves, more fuel resolves it the same
/// way.
pub proof fn lemma_scoped_type_ref_fuel(
    name: QualifiedNameView,
    owner: Seq<char>,
    ids: Seq<Seq<char>>,
    sa: Seq<(Seq<char>, String)>,
    defs: Seq<(Seq<char>, String)>,
    la: Seq<(Seq<char>, QualifiedName)>,
    imp: ImportAliases,
    f1: nat,
    f2: nat,
)
    requires
        f1 <= f2,
        scoped_type_ref(name, owner, ids, sa, defs, la, imp, f1) is Some,
    ensures
        scoped_type_ref(name, owner, ids, sa, defs, la, imp, f2) == scoped_type_ref(
            name,
            owner,
            ids,
            sa,
            defs,
            la,
            imp,
            f1,
        ),
    decreases f1,
{
    match unconjugated(name) {
        Some(u) => {
            lemma_scoped_type_ref_fuel(u, owner, ids, sa, defs, la, imp, (f1 - 1) as nat, (f2 - 1) as nat);
        },
        None => {
            if visible_type_ref(name, ids, sa, defs, la, imp, f1) is Some {
                lemma_visible_type_ref_fuel(name, ids, sa, defs, la, imp, f1, f2);
            }
        },
    }
}

// ------------------------------------------------------------ resolution

fn qualified_reference_fuel(
    name: &QualifiedName,
    stdlib_ids: &[String],
    stdlib_aliases: &StrMap<String>,
    local_definitions: &StrMap<String>,
    local_aliases: &StrMap<QualifiedName>,
    Ghost(fuel): Ghost<nat>,
) -> (r: Option<String>)
    requires
        qualified_ref(name@, strings_view(stdlib_ids@), stdlib_aliases@, local_definitions@, local_aliases@, fuel) is Some,
    ensures
        opt_str_view(r) == qualified_ref(
            name@,
            strings_view(stdlib_ids@),
            stdlib_aliases@,
            local_definitions@,
            local_aliases@,
            fuel,
        )->Some_0,
    decreases fuel,
{
    let colon = name.as_colon_string();
    match stdlib_aliases.get(colon.as_str()) {
        Some(a) => {
            return Some(owned(a.as_str()));
        },
        None => {},
    }
    if contains_id(stdlib_ids, colon.as_str()) {
        return Some(colon);
    }
    let dot = name.as_dot_string();
    match local_definitions.get(dot.as_str()) {
        Some(l) => {
            return Some(owned(l.as_str()));
        },
        None => {},
    }
    match unique_local_suffix_match(dot.as_str(), local_definitions) {
        Some(l) => {
            return Some(l);
        },
        None => {},
    }
    match local_aliases.get(dot.as_str()) {
        Some(t) => {
            return qualified_reference_fuel(
                t,
                stdlib_ids,
                stdlib_aliases,
                local_definitions,
                local_aliases,
                Ghost((fuel - 1) as nat),
            );
        },
        None => {},
    }
    match unique_local_alias_suffix_match(dot.as_str(), local_aliases) {
        Some(t) => {
            return qualified_reference_fuel(
                &t,
                stdlib_ids,
                stdlib_aliases,
                local_definitions,
                local_aliases,
                Ghost((fuel - 1) as nat),
            );
        },
        None => {},
    }
    if name.segments.len() == 1 {
        unique_suffix_match(name.segments[0].as_str(), stdlib_ids)
    } else {
        None
    }
}

/// Resolves a qualified reference: a library alias or id, a local
/// definition or the one ending with the name, the target of a local alias
/// (or of the one ending with the name), or for a simple name the one
/// library id ending with it.
pub fn resolve_qualified_reference(
    name: &QualifiedName,
    stdlib_ids: &[String],
    stdlib_aliases: &StrMap<String>,
    local_definitions: &StrMap<String>,
    local_aliases: &StrMap<QualifiedName>,
) -> (r: Option<String>)
    requires
        exists|f: nat|
            qualified_ref(name@, strings_view(stdlib_ids@), stdlib_aliases@, local_definitions@, local_aliases@, f) is Some,
    ensures
        forall|f: nat| #[trigger]
            qualified_ref(name@, strings_view(stdlib_ids@), stdlib_aliases@, local_definitions@, local_aliases@, f) matches Some(
                v,
            ) ==> opt_str_view(r) == v,
{
    let ghost ids = strings_view(stdlib_ids@);
    let ghost f = choose|f: nat|
        qualified_ref(name@, ids, stdlib_aliases@, local_definitions@, local_aliases@, f) is Some;
    let r = qualified_reference_fuel(name, stdlib_ids, stdlib_aliases, local_definitions, local_aliases, Ghost(f));
    proof {
        assert forall|g: nat| #[trigger]
            qualified_ref(name@, ids, stdlib_aliases@, local_definitions@, local_aliases@, g) is Some
                implies opt_str_view(r) == qualified_ref(name@, ids, stdlib_aliases@, local_definitions@, local_aliases@, g)->Some_0 by {
            if g <= f {
                lemma_qualified_ref_fuel(name@, ids, stdlib_aliases@, local_definitions@, local_aliases@, g, f);
            } else {
                lemma_qualified_ref_fuel(name@, ids, stdlib_aliases@, local_definitions@, local_aliases@, f, g);
            }
        }
    }
    r
}

fn visible_type_reference_fuel(
    name: &QualifiedName,
    stdlib_ids: &[String],
    stdlib_aliases: &StrMap<String>,
    local_definitions: &StrMap<String>,
    local_aliases: &StrMap<QualifiedName>,
    import_aliases: &ImportAliases,
    Ghost(fuel): Ghost<nat>,
) -> (r: Option<String>)
    requires
        visible_type_ref(
            name@,
            strings_view(stdlib_ids@),
            stdlib_aliases@,
            local_definitions@,
            local_aliases@,
            *import_aliases,
            fuel,
        ) is Some,
    ensures
        opt_str_view(r) == visible_type_ref(
            name@,
            strings_view(stdlib_ids@),
            stdlib_aliases@,
            local_definitions@,
            local_aliases@,
            *import_aliases,
            fuel,
        )->Some_0,
    decreases fuel,
{
    if name.segments.len() == 1 {
        let simple = name.segments[0].as_str();
        match local_aliases.get(simple) {
            Some(t) => {
                return visible_type_reference_fuel(
                    t,
                    stdlib_ids,
                    stdlib_aliases,
                    local_definitions,
                    local_aliases,
                    import_aliases,
                    Ghost((fuel - 1) as nat),
                );
            },
            None => {},
        }
        match import_aliases.value_aliases.get(simple) {
            Some(v) => {
                return Some(owned(v.as_str()));
            },
            None => {},
        }
        match stdlib_aliases.get(simple) {
            Some(a) => {
                return Some(owned(a.as_str()));
            },
            None => {},
        }
        return unique_suffix_match(simple, stdlib_ids);
    }
    match expand_import_namespace_prefix(name, local_aliases, import_aliases) {
        Some(e) => {
            return visible_type_reference_fuel(
                &e,
                stdlib_ids,
                stdlib_aliases,
                local_definitions,
                local_aliases,
                import_aliases,
                Ghost((fuel - 1) as nat),
            );
        },
        None => {},
    }
    let dot = name.as_dot_string();
    match import_aliases.value_aliases.get(dot.as_str()) {
        Some(v) => {
            return Some(owned(v.as_str()));
        },
        None => {},
    }
    resolve_explicit_type_reference(name, stdlib_ids, stdlib_aliases, local_definitions)
}

/// Resolves a name visible from anywhere in the module: a simple name as a
/// local alias's target, an imported value, a library alias or the one
/// library id ending with it; a longer name through its namespace alias,
/// as an imported value, or as written.
pub fn resolve_visible_type_reference(
    name: &QualifiedName,
    stdlib_ids: &[String],
    stdlib_aliases: &StrMap<String>,
    local_definitions: &StrMap<String>,
    local_aliases: &StrMap<QualifiedName>,
    import_aliases: &ImportAliases,
) -> (r: Option<String>)
    requires
        exists|f: nat|
            visible_type_ref(
                name@,
                strings_view(stdlib_ids@),
                stdlib_aliases@,
                local_definitions@,
                local_aliases@,
                *import_aliases,
                f,
            ) is Some,
    ensures
        forall|f: nat| #[trigger]
            visible_type_ref(
                name@,
                strings_view(stdlib_ids@),
                stdlib_aliases@,
                local_definitions@,
                local_aliases@,
                *import_aliases,
                f,
            ) matches Some(v) ==> opt_str_view(r) == v,
{
    let ghost ids = strings_view(stdlib_ids@);
    let ghost imp = *import_aliases;
    let ghost f = choose|f: nat|
        visible_type_ref(name@, ids, stdlib_aliases@, local_definitions@, local_aliases@, imp, f) is Some;
    let r = visible_type_reference_fuel(
        name,
        stdlib_ids,
        stdlib_aliases,
        local_definitions,
        local_aliases,
        import_aliases,
        Ghost(f),
    );
    proof {
        assert forall|g: nat| #[trigger]
            visible_type_ref(name@, ids, stdlib_aliases@, local_definitions@, local_aliases@, imp, g) is Some
                implies opt_str_view(r) == visible_type_ref(name@, ids, stdlib_aliases@, local_definitions@, local_aliases@, imp, g)->Some_0 by {
            if g <= f {
                lemma_visible_type_ref_fuel(name@, ids, stdlib_aliases@, local_definitions@, local_aliases@, imp, g, f);
            } else {
                lemma_visible_type_ref_fuel(name@, ids, stdlib_aliases@, local_definitions@, local_aliases@, imp, f, g);
            }
        }
    }
    r
}

fn type_reference_fuel(
    name: &QualifiedName,
    stdlib_ids: &[String],
    stdlib_aliases: &StrMap<String>,
    local_definitions: &StrMap<String>,
    local_aliases: &StrMap<QualifiedName>,
    import_aliases: &ImportAliases,
    Ghost(fuel): Ghost<nat>,
) -> (r: Option<String>)
    requires
        type_ref(
            name@,
            strings_view(stdlib_ids@),
            stdlib_aliases@,
            local_definitions@,
            local_aliases@,
            *import_aliases,
            fuel,
        ) is Some,
    ensures
        opt_str_view(r) == type_ref(
            name@,
            strings_view(stdlib_ids@),
            stdlib_aliases@,
            local_definitions@,
            local_aliases@,
            *import_aliases,
            fuel,
        )->Some_0,
    decreases fuel,
{
    match unconjugated_type_name(name) {
        Some(u) => {
            return type_reference_fuel(
                &u,
                stdlib_ids,
                stdlib_aliases,
                local_definitions,
                local_aliases,
                import_aliases,
                Ghost((fuel - 1) as nat),
            );
        },
        None => {},
    }
    if name.segments.len() == 1 {
        let simple = name.segments[0].as_str();
        match local_definitions.get(simple) {
            Some(l) => {
                return Some(owned(l.as_str()));
            },
            None => {},
        }
        match local_aliases.get(simple) {
            Some(t) => {
                return type_reference_fuel(
                    t,
                    stdlib_ids,
                    stdlib_aliases,
                    local_definitions,
                    local_aliases,
                    import_aliases,
                    Ghost((fuel - 1) as nat),
                );
            },
            None => {},
        }
        match import_aliases.value_aliases.get(simple) {
            Some(v) => {
                return Some(owned(v.as_str()));
            },
            None => {},
        }
        match stdlib_aliases.get(simple) {
            Some(a) => {
                return Some(owned(a.as_str()));
            },
            None => {},
        }
        return unique_suffix_match(simple, stdlib_ids);
    }
    match expand_import_namespace_prefix(name, local_aliases, import_aliases) {
        Some(e) => {
            return type_reference_fuel(
                &e,
                stdlib_ids,
                stdlib_aliases,
                local_definitions,
                local_aliases,
                import_aliases,
                Ghost((fuel - 1) as nat),
            );
        },
        None => {},
    }
    let dot = name.as_dot_string();
    match local_aliases.get(dot.as_str()) {
        Some(t) => {
            return type_reference_fuel(
                t,
                stdlib_ids,
                stdlib_aliases,
                local_definitions,
                local_aliases,
                import_aliases,
                Ghost((fuel - 1) as nat),
            );
        },
        None => {},
    }
    match unique_local_alias_suffix_match(dot.as_str(), local_aliases) {
        Some(t) => {
            return type_reference_fuel(
                &t,
                stdlib_ids,
                stdlib_aliases,
                local_definitions,
                local_aliases,
                import_aliases,
                Ghost((fuel - 1) as nat),
            );
        },
        None => {},
    }
    match import_aliases.value_aliases.get(dot.as_str()) {
        Some(v) => {
            return Some(owned(v.as_str()));
        },
        None => {},
    }
    qualified_reference_fuel(name, stdlib_ids, stdlib_aliases, local_definitions, local_aliases, Ghost(fuel))
}

/// Resolves a type reference: a conjugated name as the name it conjugates;
/// a simple name as a local definition, a local alias's target, an
/// imported value, a library alias or the one library id ending with it;
/// a longer name through its namespace alias, a local alias (or the one
/// ending with it), an imported value, or as a qualified reference.
pub fn resolve_type_reference(
    name: &QualifiedName,
    stdlib_ids: &[String],
    stdlib_aliases: &StrMap<String>,
    local_definitions: &StrMap<String>,
    local_aliases: &StrMap<QualifiedName>,
    import_aliases: &ImportAliases,
) -> (r: Option<String>)
    requires
        exists|f: nat|
            type_ref(
                name@,
                strings_view(stdlib_ids@),
                stdlib_aliases@,
                local_definitions@,
                local_aliases@,
                *import_aliases,
                f,
            ) is Some,
    ensures
        forall|f: nat| #[trigger]
            type_ref(
                name@,
                strings_view(stdlib_ids@),
                stdlib_aliases@,
                local_definitions@,
                local_aliases@,
                *import_aliases,
                f,
            ) matches Some(v) ==> opt_str_view(r) == v,
{
    let ghost ids = strings_view(stdlib_ids@);
    let ghost imp = *import_aliases;
    let ghost f = choose|f: nat|
        type_ref(name@, ids, stdlib_aliases@, local_definitions@, local_aliases@, imp, f) is Some;
    let r = type_reference_fuel(
        name,
        stdlib_ids,
        stdlib_aliases,
        local_definitions,
        local_aliases,
        import_aliases,
        Ghost(f),
    );
    proof {
        assert forall|g: nat| #[trigger]
            type_ref(name@, ids, stdlib_aliases@, local_definitions@, local_aliases@, imp, g) is Some
                implies opt_str_view(r) == type_ref(name@, ids, stdlib_aliases@, local_definitions@, local_aliases@, imp, g)->Some_0 by {
            if g <= f {
                lemma_type_ref_fuel(name@, ids, stdlib_aliases@, local_definitions@, local_aliases@, imp, g, f);
            } else {
                lemma_type_ref_fuel(name@, ids, stdlib_aliases@, local_definitions@, local_aliases@, imp, f, g);
            }
        }
    }
    r
}

fn scoped_type_reference_fuel(
    name: &QualifiedName,
    owner_qualified_name: &str,
    stdlib_ids: &[String],
    stdlib_aliases: &StrMap<String>,
    local_definitions: &StrMap<String>,
    local_aliases: &StrMap<QualifiedName>,
    import_aliases: &ImportAliases,
    Ghost(fuel): Ghost<nat>,
) -> (r: Option<String>)
    requires
        scoped_type_ref(
            name@,
            owner_qualified_name@,
            strings_view(stdlib_ids@),
            stdlib_aliases@,
            local_definitions@,
            local_aliases@,
            *import_aliases,
            fuel,
        ) is Some,
    ensures
        opt_str_view(r) == scoped_type_ref(
            name@,
            owner_qualified_name@,
            strings_view(stdlib_ids@),
            stdlib_aliases@,
            local_definitions@,
            local_aliases@,
            *import_aliases,
            fuel,
        )->Some_0,
    decreases fuel,
{
    match unconjugated_type_name(name) {
        Some(u) => {
            return scoped_type_reference_fuel(
                &u,
                owner_qualified_name,
                stdlib_ids,
                stdlib_aliases,
                local_definitions,
                local_aliases,
                import_aliases,
                Ghost((fuel - 1) as nat),
            );
        },
        None => {},
    }
    match resolve_scoped_local_type_reference(name, owner_qualified_name, local_definitions) {
        Some(l) => {
            return Some(l);
        },
        None => {},
    }
    match resolve_scoped_import_value_alias(name, owner_qualified_name, import_aliases) {
        Some(v) => {
            return Some(v);
        },
        None => {},
    }
    visible_type_reference_fuel(
        name,
        stdlib_ids,
        stdlib_aliases,
        local_definitions,
        local_aliases,
        import_aliases,
        Ghost(fuel),
    )
}

/// Resolves a type reference written in the scope of
/// `owner_qualified_name`: a conjugated name as the name it conjugates;
/// else a local definition in a scope around the owner, a value imported
/// into one, or a name visible from anywhere.
pub fn resolve_type_reference_in_scope(
    name: &QualifiedName,
    owner_qualified_name: &str,
    stdlib_ids: &[String],
    stdlib_aliases: &StrMap<String>,
    local_definitions: &StrMap<String>,
    local_aliases: &StrMap<QualifiedName>,
    import_aliases: &ImportAliases,
) -> (r: Option<String>)
    requires
        exists|f: nat|
            scoped_type_ref(
                name@,
                owner_qualified_name@,
                strings_view(stdlib_ids@),
                stdlib_aliases@,
                local_definitions@,
                local_aliases@,
                *import_aliases,
                f,
            ) is Some,
    ensures
        forall|f: nat| #[trigger]
            scoped_type_ref(
                name@,
                owner_qualified_name@,
                strings_view(stdlib_ids@),
                stdlib_aliases@,
                local_definitions@,
                local_aliases@,
                *import_aliases,
                f,
            ) matches Some(v) ==> opt_str_view(r) == v,
{
    let ghost ids = strings_view(stdlib_ids@);
    let ghost imp = *import_aliases;
    let ghost o = owner_qualified_name@;
    let ghost f = choose|f: nat|
        scoped_type_ref(name@, o, ids, stdlib_aliases@, local_definitions@, local_aliases@, imp, f) is Some;
    let r = scoped_type_reference_fuel(
        name,
        owner_qualified_name,
        stdlib_ids,
        stdlib_aliases,
        local_definitions,
        local_aliases,
        import_aliases,
        Ghost(f),
    );
    proof {
        assert forall|g: nat| #[trigger]
            scoped_type_ref(name@, o, ids, stdlib_aliases@, local_definitions@, local_aliases@, imp, g) is Some
                implies opt_str_view(r) == scoped_type_ref(name@, o, ids, stdlib_aliases@, local_definitions@, local_aliases@, imp, g)->Some_0 by {
            if g <= f {
                lemma_scoped_type_ref_fuel(name@, o, ids, stdlib_aliases@, local_definitions@, local_aliases@, imp, g, f);
            } else {
                lemma_scoped_type_ref_fuel(name@, o, ids, stdlib_aliases@, local_definitions@, local_aliases@, imp, f, g);
            }
        }
    }
    r
}


/// An import's target resolved: a wildcard import as written; else as a
/// qualified reference, or for a longer name the one library id ending
/// with its last segment.
pub open spec fn import_target_ref(
    name: QualifiedNameView,
    ids: Seq<Seq<char>>,
    sa: Seq<(Seq<char>, String)>,
    defs: Seq<(Seq<char>, String)>,
    la: Seq<(Seq<char>, QualifiedName)>,
    fuel: nat,
) -> Option<Option<Seq<char>>> {
    let colon = join_colon(name.segments);
    if colon.contains('*') {
        Some(Some(colon))
    } else {
        match qualified_ref(name, ids, sa, defs, la, fuel) {
            None => None,
            Some(Some(x)) => Some(Some(x)),
            Some(None) => Some(
                if name.segments.len() > 1 {
                    unique(suffix_matches_upto(ids, name.segments.last(), ids.len() as int))
                } else {
                    None
                },
            ),
        }
    }
}

/// Resolves the target of an import.
pub fn resolve_import_target(
    name: &QualifiedName,
    stdlib_ids: &[String],
    stdlib_aliases: &StrMap<String>,
    local_definitions: &StrMap<String>,
    local_aliases: &StrMap<QualifiedName>,
) -> (r: Option<String>)
    requires
        exists|f: nat|
            import_target_ref(name@, strings_view(stdlib_ids@), stdlib_aliases@, local_definitions@, local_aliases@, f) is Some,
    ensures
        forall|f: nat| #[trigger]
            import_target_ref(name@, strings_view(stdlib_ids@), stdlib_aliases@, local_definitions@, local_aliases@, f) matches Some(
                v,
            ) ==> opt_str_view(r) == v,
{
    let ghost ids = strings_view(stdlib_ids@);
    let colon = name.as_colon_string();
    if contains_char(colon.as_str(), '*') {
        return Some(colon);
    }
    let ghost f = choose|f: nat|
        import_target_ref(name@, ids, stdlib_aliases@, local_definitions@, local_aliases@, f) is Some;
    let q = qualified_reference_fuel(name, stdlib_ids, stdlib_aliases, local_definitions, local_aliases, Ghost(f));
    let r = match q {
        Some(x) => Some(x),
        None => if name.segments.len() > 1 {
            unique_suffix_match(name.segments[name.segments.len() - 1].as_str(), stdlib_ids)
        } else {
            None
        },
    };
    proof {
        assert forall|g: nat| #[trigger]
            import_target_ref(name@, ids, stdlib_aliases@, local_definitions@, local_aliases@, g) is Some
                implies opt_str_view(r) == import_target_ref(name@, ids, stdlib_aliases@, local_definitions@, local_aliases@, g)->Some_0 by {
            if g <= f {
                lemma_qualified_ref_fuel(name@, ids, stdlib_aliases@, local_definitions@, local_aliases@, g, f);
            } else {
                lemma_qualified_ref_fuel(name@, ids, stdlib_aliases@, local_definitions@, local_aliases@, f, g);
            }
        }
    }
    r
}

} // verus!
