//! Resolution of feature names: through the module's feature index, the
//! values its imports bring in, and the library's feature index.
use vstd::prelude::*;

use crate::kerml::ast::{QualifiedName, QualifiedNameView, join_dot};
use crate::lowering::collect::ImportAliases;
use crate::lowering::names::{expand_import_namespace_prefix, expanded_name};
use crate::lowering::resolve::{index_names, matching, opt_str_view, unique, unique_feature_match};
use crate::strmap::{StrMap, lookup, str_lookup};
use crate::text::{is_prefix, owned, str_eq, strip_prefix_str};

verus! {

/// An imported value that names a feature, without its `feature.` prefix.
pub open spec fn imported_feature(v: Option<Seq<char>>) -> Option<Seq<char>> {
    match v {
        Some(x) => if is_prefix("feature."@, x) {
            Some(x.skip(8))
        } else {
            None
        },
        None => None,
    }
}

/// The feature an imported value names, if it names one.
fn imported_feature_of(v: Option<&String>) -> (r: Option<String>)
    ensures
        opt_str_view(r) == imported_feature(
            match v {
                Some(x) => Some(x@),
                None => None,
            },
        ),
{
    proof {
        reveal_strlit("feature.");
    }
    match v {
        Some(x) => strip_prefix_str(x.as_str(), "feature."),
        None => None,
    }
}

/// A feature name resolved in the module, following namespace aliases for
/// at most `fuel` steps: an imported value naming a feature, the one
/// feature ending with the name, or for a simple name an imported feature
/// or the one feature ending with it.
pub open spec fn local_feature_name(
    name: QualifiedNameView,
    la: Seq<(Seq<char>, QualifiedName)>,
    imp: ImportAliases,
    lfi: Seq<(Seq<char>, StrMap<String>)>,
    fuel: nat,
) -> Option<Option<Seq<char>>>
    decreases fuel,
{
    if fuel == 0 {
        None
    } else {
        match expanded_name(name, la, imp.namespace_aliases@) {
            Some(e) => local_feature_name(e, la, imp, lfi, (fuel - 1) as nat),
            None => {
                let dotted = join_dot(name.segments);
                let names = index_names(lfi);
                if imported_feature(str_lookup(imp.value_aliases@, dotted)) is Some {
                    Some(imported_feature(str_lookup(imp.value_aliases@, dotted)))
                } else if unique(matching(names, dotted, None)) is Some {
                    Some(unique(matching(names, dotted, None)))
                } else if name.segments.len() == 1 {
                    let simple = name.segments[0];
                    if imported_feature(str_lookup(imp.value_aliases@, simple)) is Some {
                        Some(imported_feature(str_lookup(imp.value_aliases@, simple)))
                    } else {
                        Some(unique(matching(names, simple, None)))
                    }
                } else {
                    Some(None)
                }
            },
        }
    }
}

/// Once a feature name resolves, more fuel resolves it the same way.
pub proof fn lemma_local_feature_name_fuel(
    name: QualifiedNameView,
    la: Seq<(Seq<char>, QualifiedName)>,
    imp: ImportAliases,
    lfi: Seq<(Seq<char>, StrMap<String>)>,
    f1: nat,
    f2: nat,
)
    requires
        f1 <= f2,
        local_feature_name(name, la, imp, lfi, f1) is Some,
    ensures
        local_feature_name(name, la, imp, lfi, f2) == local_feature_name(name, la, imp, lfi, f1),
    decreases f1,
{
    match expanded_name(name, la, imp.namespace_aliases@) {
        Some(e) => {
            lemma_local_feature_name_fuel(e, la, imp, lfi, (f1 - 1) as nat, (f2 - 1) as nat);
        },
        None => {},
    }
}

fn local_feature_name_fuel(
    name: &QualifiedName,
    local_aliases: &StrMap<QualifiedName>,
    import_aliases: &ImportAliases,
    local_feature_index: &StrMap<StrMap<String>>,
    Ghost(fuel): Ghost<nat>,
) -> (r: Option<String>)
    requires
        local_feature_name(name@, local_aliases@, *import_aliases, local_feature_index@, fuel) is Some,
    ensures
        opt_str_view(r) == local_feature_name(name@, local_aliases@, *import_aliases, local_feature_index@, fuel)->Some_0,
    decreases fuel,
{
    match expand_import_namespace_prefix(name, local_aliases, import_aliases) {
        Some(e) => {
            return local_feature_name_fuel(
                &e,
                local_aliases,
                import_aliases,
                local_feature_index,
                Ghost((fuel - 1) as nat),
            );
        },
        None => {},
    }
    let dotted = name.as_dot_string();
    match imported_feature_of(import_aliases.value_aliases.get(dotted.as_str())) {
        Some(f) => {
            return Some(f);
        },
        None => {},
    }
    match unique_feature_match(dotted.as_str(), local_feature_index) {
        Some(exact) => {
            return Some(exact);
        },
        None => {},
    }
    if name.segments.len() == 1 {
        let simple = name.segments[0].as_str();
        match imported_feature_of(import_aliases.value_aliases.get(simple)) {
            Some(f) => {
                return Some(f);
            },
            None => {},
        }
        unique_feature_match(simple, local_feature_index)
    } else {
        None
    }
}

/// Resolves a feature name among the module's features: through a
/// namespace alias, as an imported value naming a feature, as the one
/// feature ending with the name, or for a simple name as an imported
/// feature or the one feature ending with it.
pub fn resolve_local_feature_name(
    name: &QualifiedName,
    local_aliases: &StrMap<QualifiedName>,
    import_aliases: &ImportAliases,
    local_feature_index: &StrMap<StrMap<String>>,
) -> (r: Option<String>)
    requires
        exists|f: nat| local_feature_name(name@, local_aliases@, *import_aliases, local_feature_index@, f) is Some,
    ensures
        forall|f: nat| #[trigger]
            local_feature_name(name@, local_aliases@, *import_aliases, local_feature_index@, f) matches Some(v)
                ==> opt_str_view(r) == v,
{
    let ghost imp = *import_aliases;
    let ghost f = choose|f: nat| local_feature_name(name@, local_aliases@, imp, local_feature_index@, f) is Some;
    let r = local_feature_name_fuel(name, local_aliases, import_aliases, local_feature_index, Ghost(f));
    proof {
        assert forall|g: nat| #[trigger]
            local_feature_name(name@, local_aliases@, imp, local_feature_index@, g) is Some implies opt_str_view(r)
                == local_feature_name(name@, local_aliases@, imp, local_feature_index@, g)->Some_0 by {
            if g <= f {
                lemma_local_feature_name_fuel(name@, local_aliases@, imp, local_feature_index@, g, f);
            } else {
                lemma_local_feature_name_fuel(name@, local_aliases@, imp, local_feature_index@, f, g);
            }
        }
    }
    r
}

/// A feature name resolved among the features of `owner`: a simple name
/// by its name there, a longer one (after its namespace alias) when it is
/// the qualified name of one of them.
pub open spec fn owner_feature_name(
    owner: Seq<char>,
    name: QualifiedNameView,
    la: Seq<(Seq<char>, QualifiedName)>,
    imp: ImportAliases,
    lfi: Seq<(Seq<char>, StrMap<String>)>,
) -> Option<Seq<char>> {
    let resolved = match expanded_name(name, la, imp.namespace_aliases@) {
        Some(e) => e,
        None => name,
    };
    match lookup(lfi, owner) {
        None => None,
        Some(scope) => if resolved.segments.len() == 1 {
            str_lookup(scope@, resolved.segments[0])
        } else if exists|i: int| 0 <= i < scope@.len() && (#[trigger] scope@[i]).1@ == join_dot(resolved.segments) {
            Some(join_dot(resolved.segments))
        } else {
            None
        },
    }
}

/// Resolves a feature name among the features of the owner
/// `owner_qualified_name`.
#[verifier::loop_isolation(false)]
pub fn resolve_owner_feature_name(
    owner_qualified_name: &str,
    name: &QualifiedName,
    local_aliases: &StrMap<QualifiedName>,
    import_aliases: &ImportAliases,
    local_feature_index: &StrMap<StrMap<String>>,
) -> (r: Option<String>)
    ensures
        opt_str_view(r) == owner_feature_name(
            owner_qualified_name@,
            name@,
            local_aliases@,
            *import_aliases,
            local_feature_index@,
        ),
{
    let expanded = expand_import_namespace_prefix(name, local_aliases, import_aliases);
    let resolved = match &expanded {
        Some(e) => e,
        None => name,
    };
    let scope = match local_feature_index.get(owner_qualified_name) {
        Some(s) => s,
        None => {
            return None;
        },
    };
    if resolved.segments.len() == 1 {
        match scope.get(resolved.segments[0].as_str()) {
            Some(q) => Some(owned(q.as_str())),
            None => None,
        }
    } else {
        let dotted = resolved.as_dot_string();
        let n = scope.len();
        let mut i: usize = 0;
        while i < n
            invariant
                n == scope@.len(),
                i <= n,
                forall|j: int| 0 <= j < i ==> (#[trigger] scope@[j]).1@ != dotted@,
            decreases n - i,
        {
            if str_eq(scope.value_at(i).as_str(), dotted.as_str()) {
                proof {
                    assert(scope@[i as int].1@ == dotted@);
                }
                return Some(dotted);
            }
            i = i + 1;
        }
        None
    }
}

/// A feature of the library type `owner_type_id` (with or without its
/// `type.` or `feature.` prefix) named by a simple name.
pub open spec fn stdlib_owned_feature(
    owner_type_id: Seq<char>,
    name: QualifiedNameView,
    sfi: Seq<(Seq<char>, StrMap<String>)>,
) -> Option<Seq<char>> {
    if name.segments.len() != 1 {
        None
    } else {
        let owner = if is_prefix("type."@, owner_type_id) {
            owner_type_id.skip(5)
        } else if is_prefix("feature."@, owner_type_id) {
            owner_type_id.skip(8)
        } else {
            owner_type_id
        };
        match lookup(sfi, owner) {
            Some(features) => str_lookup(features@, name.segments[0]),
            None => None,
        }
    }
}

/// Resolves a simple feature name among the features of library type
/// `owner_type_id`.
pub fn resolve_stdlib_owned_feature_reference(
    owner_type_id: &str,
    name: &QualifiedName,
    stdlib_feature_index: &StrMap<StrMap<String>>,
) -> (r: Option<String>)
    ensures
        opt_str_view(r) == stdlib_owned_feature(owner_type_id@, name@, stdlib_feature_index@),
{
    proof {
        reveal_strlit("type.");
        reveal_strlit("feature.");
    }
    if name.segments.len() != 1 {
        return None;
    }
    let owner = match strip_prefix_str(owner_type_id, "type.") {
        Some(o) => o,
        None => match strip_prefix_str(owner_type_id, "feature.") {
            Some(o) => o,
            None => owned(owner_type_id),
        },
    };
    match stdlib_feature_index.get(owner.as_str()) {
        Some(features) => match features.get(name.segments[0].as_str()) {
            Some(q) => Some(owned(q.as_str())),
            None => None,
        },
        None => None,
    }
}

} // verus!
