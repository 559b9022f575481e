//! The names a module's imports bring in: each import binds values and
//! namespaces by alias, and an alias bound to two different targets
//! becomes ambiguous and binds nothing from then on.
//!
//! What the imports of a module bind is stated as a list of bindings
//! ([`AliasBinding`]) applied in order to the alias maps
//! ([`apply_bindings`]).
use vstd::prelude::*;

use crate::kerml::ast::{QualifiedName, QualifiedNameView, join_dot, strings_view};
use crate::kerml::token::{Diagnostic, SourceSpan};
use crate::lowering::collect::ImportAliases;
use crate::lowering::ir::{ResolvedImport, ResolvedPackage};
use crate::lowering::names::{
    direct_child, direct_child_name, dotted_name_to_qualified_name, import_namespace_prefix, import_prefix,
    local_namespace, names_match, opt_view, qualified_names_match, resolve_local_namespace_dot,
};
use crate::strmap::{StrMap, has_key, lookup, str_lookup};
use crate::text::{
    after_last, after_last_str, concat2, concat3, contains_str, ends_with, has_sub, is_prefix, is_suffix, owned,
    push_char, replace_all, replace_str, split_on, split_str, strip_prefix_str,
};

verus! {

/// How unresolved references are treated while lowering.
#[derive(Debug, Clone, Copy)]
pub struct ResolvePolicy {
    pub preserve_unresolved_references: bool,
}

/// The policy that reports unresolved references.
pub fn strict_resolve_policy() -> (p: ResolvePolicy)
    ensures
        !p.preserve_unresolved_references,
{
    ResolvePolicy { preserve_unresolved_references: false }
}

/// The policy that keeps unresolved references as written (KerML).
pub fn kerml_resolve_policy() -> (p: ResolvePolicy)
    ensures
        p.preserve_unresolved_references,
{
    ResolvePolicy { preserve_unresolved_references: true }
}

// ------------------------------------------------------------ bindings

/// One binding an import makes: a value alias to a target id, or a
/// namespace alias to a qualified name.
pub enum AliasBinding {
    Value(Seq<char>, Seq<char>),
    Namespace(Seq<char>, QualifiedNameView),
}

/// The alias maps as a mathematical value: values and namespaces by alias,
/// and the aliases that became ambiguous.
pub struct AliasState {
    pub values: Map<Seq<char>, Seq<char>>,
    pub ambiguous_values: Set<Seq<char>>,
    pub namespaces: Map<Seq<char>, QualifiedNameView>,
    pub ambiguous_namespaces: Set<Seq<char>>,
}

/// The alias maps of `a`.
pub open spec fn alias_state(a: ImportAliases) -> AliasState {
    AliasState {
        values: Map::new(
            |q: Seq<char>| has_key(a.value_aliases@, q),
            |q: Seq<char>| str_lookup(a.value_aliases@, q)->Some_0,
        ),
        ambiguous_values: Set::new(|q: Seq<char>| has_key(a.ambiguous_value_aliases@, q)),
        namespaces: Map::new(
            |q: Seq<char>| has_key(a.namespace_aliases@, q),
            |q: Seq<char>| lookup(a.namespace_aliases@, q)->Some_0@,
        ),
        ambiguous_namespaces: Set::new(|q: Seq<char>| has_key(a.ambiguous_namespace_aliases@, q)),
    }
}

/// The alias maps with no alias bound.
pub open spec fn empty_aliases() -> AliasState {
    AliasState {
        values: Map::empty(),
        ambiguous_values: Set::empty(),
        namespaces: Map::empty(),
        ambiguous_namespaces: Set::empty(),
    }
}

/// The alias maps after one binding: an ambiguous alias stays unbound; an
/// alias already bound to another target becomes ambiguous and unbound;
/// otherwise the alias is bound to the target.
pub open spec fn apply_binding(s: AliasState, b: AliasBinding) -> AliasState {
    match b {
        AliasBinding::Value(alias, target) => if s.ambiguous_values.contains(alias) {
            s
        } else if s.values.contains_key(alias) && s.values[alias] != target {
            AliasState {
                values: s.values.remove(alias),
                ambiguous_values: s.ambiguous_values.insert(alias),
                namespaces: s.namespaces,
                ambiguous_namespaces: s.ambiguous_namespaces,
            }
        } else {
            AliasState {
                values: s.values.insert(alias, target),
                ambiguous_values: s.ambiguous_values,
                namespaces: s.namespaces,
                ambiguous_namespaces: s.ambiguous_namespaces,
            }
        },
        AliasBinding::Namespace(alias, target) => if s.ambiguous_namespaces.contains(alias) {
            s
        } else if s.namespaces.contains_key(alias) && !names_match(s.namespaces[alias].segments, target.segments) {
            AliasState {
                values: s.values,
                ambiguous_values: s.ambiguous_values,
                namespaces: s.namespaces.remove(alias),
                ambiguous_namespaces: s.ambiguous_namespaces.insert(alias),
            }
        } else {
            AliasState {
                values: s.values,
                ambiguous_values: s.ambiguous_values,
                namespaces: s.namespaces.insert(alias, target),
                ambiguous_namespaces: s.ambiguous_namespaces,
            }
        },
    }
}

/// The alias maps after the bindings `bs`, in order.
pub open spec fn apply_bindings(s: AliasState, bs: Seq<AliasBinding>) -> AliasState
    decreases bs.len(),
{
    if bs.len() == 0 {
        s
    } else {
        apply_binding(apply_bindings(s, bs.drop_last()), bs.last())
    }
}

/// Applying two lists of bindings in turn is applying them joined.
pub proof fn lemma_apply_bindings_concat(s: AliasState, a: Seq<AliasBinding>, b: Seq<AliasBinding>)
    ensures
        apply_bindings(s, a + b) == apply_bindings(apply_bindings(s, a), b),
    decreases b.len(),
{
    if b.len() > 0 {
        lemma_apply_bindings_concat(s, a, b.drop_last());
        assert((a + b).drop_last() =~= a + b.drop_last());
        assert((a + b).last() == b.last());
    }
}

/// Binds value alias `alias` to `target`, unless that makes it ambiguous.
pub fn bind_value_alias(
    aliases: &mut ImportAliases,
    alias: &str,
    target: String,
    _span: &SourceSpan,
    _policy: ResolvePolicy,
) -> (r: Result<(), Diagnostic>)
    ensures
        r is Ok,
        alias_state(*final(aliases)) == apply_binding(alias_state(*old(aliases)), AliasBinding::Value(alias@, target@)),
{
    let ghost s0 = alias_state(*aliases);
    let ghost t = target@;
    if aliases.ambiguous_value_aliases.contains_key(alias) {
        proof {
            assert(s0.ambiguous_values.contains(alias@));
        }
        return Ok(());
    }
    let ghost v0 = aliases.value_aliases@;
    let ghost a0 = aliases.ambiguous_value_aliases@;
    let differs = match aliases.value_aliases.get(alias) {
        Some(existing) => !crate::text::str_eq(existing.as_str(), target.as_str()),
        None => false,
    };
    if differs {
        let _ = aliases.value_aliases.remove(alias);
        aliases.ambiguous_value_aliases.insert(owned(alias), ());
        proof {
            let s1 = alias_state(*aliases);
            assert(s0.values.contains_key(alias@) && s0.values[alias@] != t);
            assert forall|q: Seq<char>| #[trigger] has_key(aliases.value_aliases@, q) == (has_key(v0, q) && q != alias@) by {
                assert(lookup(aliases.value_aliases@, q) == if q == alias@ {
                    None
                } else {
                    lookup(v0, q)
                });
            }
            assert(s1.values =~= s0.values.remove(alias@));
            assert forall|q: Seq<char>| #[trigger] has_key(aliases.ambiguous_value_aliases@, q) == (has_key(a0, q)
                || q == alias@) by {
                assert(lookup(aliases.ambiguous_value_aliases@, q) == if q == alias@ {
                    Some(())
                } else {
                    lookup(a0, q)
                });
            }
            assert(s1.ambiguous_values =~= s0.ambiguous_values.insert(alias@));
        }
    } else {
        let ghost target_copy = target;
        aliases.value_aliases.insert(owned(alias), target);
        proof {
            let s1 = alias_state(*aliases);
            assert forall|q: Seq<char>| #[trigger] str_lookup(aliases.value_aliases@, q) == if q == alias@ {
                Some(t)
            } else {
                str_lookup(v0, q)
            } by {
                assert(lookup(aliases.value_aliases@, q) == if q == alias@ {
                    Some(target_copy)
                } else {
                    lookup(v0, q)
                });
            }
            assert forall|q: Seq<char>| #[trigger] has_key(aliases.value_aliases@, q) == (has_key(v0, q) || q
                == alias@) by {
                assert(lookup(aliases.value_aliases@, q) == if q == alias@ {
                    Some(target_copy)
                } else {
                    lookup(v0, q)
                });
            }
            assert(s1.values =~= s0.values.insert(alias@, t));
            assert(s1.ambiguous_values =~= s0.ambiguous_values);
        }
    }
    Ok(())
}

/// Binds namespace alias `alias` to `target`, unless that makes it
/// ambiguous (a name that neither matches the other is another target).
pub fn bind_namespace_alias(
    aliases: &mut ImportAliases,
    alias: &str,
    target: QualifiedName,
    _span: &SourceSpan,
    _policy: ResolvePolicy,
) -> (r: Result<(), Diagnostic>)
    ensures
        r is Ok,
        alias_state(*final(aliases)) == apply_binding(alias_state(*old(aliases)), AliasBinding::Namespace(alias@, target@)),
{
    let ghost s0 = alias_state(*aliases);
    let ghost t = target@;
    if aliases.ambiguous_namespace_aliases.contains_key(alias) {
        proof {
            assert(s0.ambiguous_namespaces.contains(alias@));
        }
        return Ok(());
    }
    let ghost n0 = aliases.namespace_aliases@;
    let ghost a0 = aliases.ambiguous_namespace_aliases@;
    let differs = match aliases.namespace_aliases.get(alias) {
        Some(existing) => !qualified_names_match(existing, &target),
        None => false,
    };
    if differs {
        let _ = aliases.namespace_aliases.remove(alias);
        aliases.ambiguous_namespace_aliases.insert(owned(alias), ());
        proof {
            let s1 = alias_state(*aliases);
            assert(s0.namespaces.contains_key(alias@) && !names_match(s0.namespaces[alias@].segments, t.segments));
            assert forall|q: Seq<char>| #[trigger] has_key(aliases.namespace_aliases@, q) == (has_key(n0, q) && q
                != alias@) by {
                assert(lookup(aliases.namespace_aliases@, q) == if q == alias@ {
                    None
                } else {
                    lookup(n0, q)
                });
            }
            assert(s1.namespaces =~= s0.namespaces.remove(alias@));
            assert forall|q: Seq<char>| #[trigger] has_key(aliases.ambiguous_namespace_aliases@, q) == (has_key(
                a0,
                q,
            ) || q == alias@) by {
                assert(lookup(aliases.ambiguous_namespace_aliases@, q) == if q == alias@ {
                    Some(())
                } else {
                    lookup(a0, q)
                });
            }
            assert(s1.ambiguous_namespaces =~= s0.ambiguous_namespaces.insert(alias@));
        }
    } else {
        let ghost tq = target;
        aliases.namespace_aliases.insert(owned(alias), target);
        proof {
            let s1 = alias_state(*aliases);
            assert forall|q: Seq<char>| #[trigger] lookup(aliases.namespace_aliases@, q) == if q == alias@ {
                Some(tq)
            } else {
                lookup(n0, q)
            } by {}
            assert forall|q: Seq<char>| #[trigger] has_key(aliases.namespace_aliases@, q) == (has_key(n0, q) || q
                == alias@) by {
                assert(lookup(aliases.namespace_aliases@, q) == if q == alias@ {
                    Some(tq)
                } else {
                    lookup(n0, q)
                });
            }
            assert(s1.namespaces =~= s0.namespaces.insert(alias@, t));
            assert(s1.ambiguous_namespaces =~= s0.ambiguous_namespaces);
        }
    }
    Ok(())
}

/// The bindings of `alias` under each enclosing form of the owner package's
/// name: for owner `a.b.c`, `a.b.c.alias`, `b.c.alias` and `c.alias`.
pub open spec fn owner_qualified_bindings(owner: Seq<char>, alias: Seq<char>, target: Seq<char>) -> Seq<AliasBinding> {
    if owner.len() == 0 {
        Seq::empty()
    } else {
        let segments = split_on(owner, "."@);
        Seq::new(
            segments.len(),
            |i: int| AliasBinding::Value(join_dot(segments.skip(i)) + "."@ + alias, target),
        )
    }
}

/// The segments of `v` from `start` on, joined by `.`.
fn join_dot_from(v: &Vec<String>, start: usize) -> (s: String)
    requires
        start <= v@.len(),
    ensures
        s@ == join_dot(strings_view(v@).skip(start as int)),
{
    let ghost sv = strings_view(v@);
    let mut s = String::new();
    let mut j: usize = start;
    while j < v.len()
        invariant
            start <= j <= v@.len(),
            sv == strings_view(v@),
            s@ == join_dot(sv.subrange(start as int, j as int)),
        decreases v@.len() - j,
    {
        let ghost prefix = sv.subrange(start as int, j + 1);
        assert(prefix.drop_last() =~= sv.subrange(start as int, j as int));
        if j > start {
            push_char(&mut s, '.');
        }
        s.append(v[j].as_str());
        j = j + 1;
    }
    assert(sv.subrange(start as int, v@.len() as int) =~= sv.skip(start as int));
    s
}

/// Binds `alias` to `target` under each enclosing form of the owner
/// package's name.
pub fn bind_owner_qualified_value_aliases(
    aliases: &mut ImportAliases,
    owner_package_qualified_name: &str,
    alias: &str,
    target: String,
    span: &SourceSpan,
    policy: ResolvePolicy,
) -> (r: Result<(), Diagnostic>)
    ensures
        r is Ok,
        alias_state(*final(aliases)) == apply_bindings(
            alias_state(*old(aliases)),
            owner_qualified_bindings(owner_package_qualified_name@, alias@, target@),
        ),
{
    proof {
        reveal_strlit(".");
    }
    let ghost s0 = alias_state(*aliases);
    let ghost bs = owner_qualified_bindings(owner_package_qualified_name@, alias@, target@);
    if owner_package_qualified_name.unicode_len() == 0 {
        assert(bs.len() == 0);
        return Ok(());
    }
    let segments = split_str(owner_package_qualified_name, ".");
    proof {
        assert(strings_view(segments@) =~= split_on(owner_package_qualified_name@, "."@));
    }
    let mut start: usize = 0;
    while start < segments.len()
        invariant
            start <= segments@.len(),
            bs.len() == segments@.len(),
            strings_view(segments@) == split_on(owner_package_qualified_name@, "."@),
            owner_package_qualified_name@.len() > 0,
            bs == owner_qualified_bindings(owner_package_qualified_name@, alias@, target@),
            alias_state(*aliases) == apply_bindings(s0, bs.take(start as int)),
        decreases segments@.len() - start,
    {
        let joined = join_dot_from(&segments, start);
        let qualified_alias = concat3(joined.as_str(), ".", alias);
        let _ = bind_value_alias(aliases, qualified_alias.as_str(), owned(target.as_str()), span, policy);
        proof {
            assert(bs.take(start + 1).drop_last() =~= bs.take(start as int));
            assert(bs.take(start + 1).last() == bs[start as int]);
        }
        start = start + 1;
    }
    proof {
        assert(bs.take(segments@.len() as int) =~= bs);
    }
    Ok(())
}


// ------------------------------------------------------------ imports

/// Binding `alias` to `target` as written and under each enclosing form of
/// the owner package's name.
pub open spec fn value_bindings(owner: Seq<char>, alias: Seq<char>, target: Seq<char>) -> Seq<AliasBinding> {
    seq![AliasBinding::Value(alias, target)] + owner_qualified_bindings(owner, alias, target)
}

proof fn lemma_apply_single(s: AliasState, b: AliasBinding)
    ensures
        apply_bindings(s, seq![b]) == apply_binding(s, b),
{
    let one = seq![b];
    assert(one.drop_last() =~= Seq::<AliasBinding>::empty());
    assert(apply_bindings(s, one.drop_last()) == s);
    assert(one.last() == b);
}

proof fn lemma_apply_one_then(s: AliasState, b: AliasBinding, rest: Seq<AliasBinding>)
    ensures
        apply_bindings(s, seq![b] + rest) == apply_bindings(apply_binding(s, b), rest),
{
    lemma_apply_bindings_concat(s, seq![b], rest);
    lemma_apply_single(s, b);
}

/// Binds `alias` to `target` as written and under each enclosing form of
/// the owner package's name.
fn bind_value_everywhere(
    aliases: &mut ImportAliases,
    owner: &str,
    alias: &str,
    target: String,
    span: &SourceSpan,
    policy: ResolvePolicy,
)
    ensures
        alias_state(*final(aliases)) == apply_bindings(alias_state(*old(aliases)), value_bindings(owner@, alias@, target@)),
{
    let ghost s0 = alias_state(*aliases);
    let ghost t = target@;
    let _ = bind_value_alias(aliases, alias, owned(target.as_str()), span, policy);
    let _ = bind_owner_qualified_value_aliases(aliases, owner, alias, target, span, policy);
    proof {
        lemma_apply_one_then(s0, AliasBinding::Value(alias@, t), owner_qualified_bindings(owner@, alias@, t));
    }
}

/// The bindings of the direct children of `prefix` among the first `n`
/// names, each as a value with id `id_prefix` and its name.
pub open spec fn child_value_bindings(
    names: Seq<Seq<char>>,
    prefix: Seq<char>,
    owner: Seq<char>,
    id_prefix: Seq<char>,
    n: int,
) -> Seq<AliasBinding>
    decreases n,
{
    if n <= 0 {
        Seq::empty()
    } else {
        child_value_bindings(names, prefix, owner, id_prefix, n - 1) + match direct_child(names[n - 1], prefix) {
            Some(c) => value_bindings(owner, c, id_prefix + names[n - 1]),
            None => Seq::empty(),
        }
    }
}

/// Binds the direct children of `prefix` among `names` as values.
fn bind_child_values(
    aliases: &mut ImportAliases,
    names: &[String],
    prefix: &str,
    owner: &str,
    id_prefix: &str,
    span: &SourceSpan,
    policy: ResolvePolicy,
)
    ensures
        alias_state(*final(aliases)) == apply_bindings(
            alias_state(*old(aliases)),
            child_value_bindings(strings_view(names@), prefix@, owner@, id_prefix@, names@.len() as int),
        ),
{
    let ghost s0 = alias_state(*aliases);
    let ghost nv = strings_view(names@);
    let mut i: usize = 0;
    while i < names.len()
        invariant
            i <= names@.len(),
            nv == strings_view(names@),
            alias_state(*aliases) == apply_bindings(s0, child_value_bindings(nv, prefix@, owner@, id_prefix@, i as int)),
        decreases names@.len() - i,
    {
        let ghost before = child_value_bindings(nv, prefix@, owner@, id_prefix@, i as int);
        match direct_child_name(names[i].as_str(), prefix) {
            Some(child) => {
                let target = concat2(id_prefix, names[i].as_str());
                bind_value_everywhere(aliases, owner, child, target, span, policy);
                proof {
                    assert(nv[i as int] == names@[i as int]@);
                    lemma_apply_bindings_concat(s0, before, value_bindings(owner@, child@, target@));
                }
            },
            None => {
                proof {
                    assert(nv[i as int] == names@[i as int]@);
                    assert(before + Seq::<AliasBinding>::empty() =~= before);
                }
            },
        }
        i = i + 1;
    }
}

/// The namespace bindings of the packages among the first `n` that are
/// direct children of `prefix`.
pub open spec fn child_package_bindings(
    packages: Seq<ResolvedPackage>,
    prefix: Seq<char>,
    span: SourceSpan,
    n: int,
) -> Seq<AliasBinding>
    decreases n,
{
    if n <= 0 {
        Seq::empty()
    } else {
        child_package_bindings(packages, prefix, span, n - 1) + match direct_child(
            packages[n - 1].qualified_name@,
            prefix,
        ) {
            Some(c) => seq![
                AliasBinding::Namespace(
                    c,
                    QualifiedNameView { segments: split_on(packages[n - 1].qualified_name@, "."@), span },
                ),
            ],
            None => Seq::empty(),
        }
    }
}

/// Binds the packages that are direct children of `prefix` as namespaces.
fn bind_child_packages(
    aliases: &mut ImportAliases,
    packages: &[ResolvedPackage],
    prefix: &str,
    span: &SourceSpan,
    policy: ResolvePolicy,
)
    ensures
        alias_state(*final(aliases)) == apply_bindings(
            alias_state(*old(aliases)),
            child_package_bindings(packages@, prefix@, *span, packages@.len() as int),
        ),
{
    let ghost s0 = alias_state(*aliases);
    let mut i: usize = 0;
    while i < packages.len()
        invariant
            i <= packages@.len(),
            alias_state(*aliases) == apply_bindings(s0, child_package_bindings(packages@, prefix@, *span, i as int)),
        decreases packages@.len() - i,
    {
        let ghost before = child_package_bindings(packages@, prefix@, *span, i as int);
        let package = &packages[i];
        match direct_child_name(package.qualified_name.as_str(), prefix) {
            Some(child) => {
                let target = dotted_name_to_qualified_name(package.qualified_name.as_str(), span);
                let ghost b = AliasBinding::Namespace(child@, target@);
                let _ = bind_namespace_alias(aliases, child, target, span, policy);
                proof {
                    lemma_apply_bindings_concat(s0, before, seq![b]);
                    lemma_apply_single(apply_bindings(s0, before), b);
                }
            },
            None => {
                proof {
                    assert(before + Seq::<AliasBinding>::empty() =~= before);
                }
            },
        }
        i = i + 1;
    }
}

/// The bindings of the library aliases among the first `n` that are
/// direct children of `prefix`.
pub open spec fn stdlib_alias_bindings(
    sa: Seq<(Seq<char>, String)>,
    prefix: Seq<char>,
    owner: Seq<char>,
    n: int,
) -> Seq<AliasBinding>
    decreases n,
{
    if n <= 0 {
        Seq::empty()
    } else {
        let key = sa[n - 1].0;
        stdlib_alias_bindings(sa, prefix, owner, n - 1) + if is_prefix(prefix, key) && !has_sub(
            key.skip(prefix.len() as int),
            "::"@,
        ) {
            value_bindings(owner, key.skip(prefix.len() as int), sa[n - 1].1@)
        } else {
            Seq::empty()
        }
    }
}

/// Binds the library aliases that are direct children of `prefix` by
/// their short names.
fn bind_stdlib_aliases(
    aliases: &mut ImportAliases,
    stdlib_aliases: &StrMap<String>,
    prefix: &str,
    owner: &str,
    span: &SourceSpan,
    policy: ResolvePolicy,
)
    ensures
        alias_state(*final(aliases)) == apply_bindings(
            alias_state(*old(aliases)),
            stdlib_alias_bindings(stdlib_aliases@, prefix@, owner@, stdlib_aliases@.len() as int),
        ),
{
    let ghost s0 = alias_state(*aliases);
    let n = stdlib_aliases.len();
    let mut i: usize = 0;
    while i < n
        invariant
            n == stdlib_aliases@.len(),
            i <= n,
            alias_state(*aliases) == apply_bindings(
                s0,
                stdlib_alias_bindings(stdlib_aliases@, prefix@, owner@, i as int),
            ),
        decreases n - i,
    {
        let ghost before = stdlib_alias_bindings(stdlib_aliases@, prefix@, owner@, i as int);
        let key = stdlib_aliases.key_at(i);
        let mut bound = false;
        match strip_prefix_str(key.as_str(), prefix) {
            Some(short) => {
                if !contains_str(short.as_str(), "::") {
                    let target = owned(stdlib_aliases.value_at(i).as_str());
                    bind_value_everywhere(aliases, owner, short.as_str(), target, span, policy);
                    proof {
                        lemma_apply_bindings_concat(s0, before, value_bindings(owner@, short@, target@));
                    }
                    bound = true;
                }
            },
            None => {},
        }
        if !bound {
            proof {
                assert(before + Seq::<AliasBinding>::empty() =~= before);
            }
        }
        i = i + 1;
    }
}

/// The bindings a wildcard import of `namespace` makes: when it names a
/// package of the module, that package as a namespace and its direct
/// child packages, definitions (`type.` ids) and usages (`feature.` ids);
/// otherwise the library namespace, its direct child ids and the library
/// aliases directly under it.
pub open spec fn wildcard_bindings(
    namespace: Seq<char>,
    owner: Seq<char>,
    root: Option<Seq<char>>,
    packages: Seq<ResolvedPackage>,
    definition_names: Seq<Seq<char>>,
    usage_names: Seq<Seq<char>>,
    ids: Seq<Seq<char>>,
    sa: Seq<(Seq<char>, String)>,
    span: SourceSpan,
) -> Seq<AliasBinding> {
    match local_namespace(namespace, owner, root, packages) {
        Some(nd) => {
            let prefix = nd + "."@;
            seq![
                AliasBinding::Namespace(
                    after_last(nd, "."@),
                    QualifiedNameView { segments: split_on(nd, "."@), span },
                ),
            ] + child_package_bindings(packages, prefix, span, packages.len() as int) + child_value_bindings(
                definition_names,
                prefix,
                owner,
                "type."@,
                definition_names.len() as int,
            ) + child_value_bindings(usage_names, prefix, owner, "feature."@, usage_names.len() as int)
        },
        None => {
            let prefix = namespace + "::"@;
            seq![
                AliasBinding::Namespace(
                    after_last(namespace, "::"@),
                    QualifiedNameView { segments: split_on(replace_all(namespace, "::"@, "."@), "."@), span },
                ),
            ] + child_value_bindings(ids, prefix, owner, Seq::empty(), ids.len() as int) + stdlib_alias_bindings(
                sa,
                prefix,
                owner,
                sa.len() as int,
            )
        },
    }
}

/// Binds what a wildcard import of `namespace` brings in.
pub fn add_wildcard_import_aliases(
    namespace: &str,
    owner_package_qualified_name: &str,
    root_package: &Option<String>,
    packages: &[ResolvedPackage],
    definition_names: &[String],
    usage_names: &[String],
    stdlib_ids: &[String],
    stdlib_aliases: &StrMap<String>,
    aliases: &mut ImportAliases,
    span: &SourceSpan,
    policy: ResolvePolicy,
) -> (r: Result<(), Diagnostic>)
    ensures
        r is Ok,
        alias_state(*final(aliases)) == apply_bindings(
            alias_state(*old(aliases)),
            wildcard_bindings(
                namespace@,
                owner_package_qualified_name@,
                opt_view(*root_package),
                packages@,
                strings_view(definition_names@),
                strings_view(usage_names@),
                strings_view(stdlib_ids@),
                stdlib_aliases@,
                *span,
            ),
        ),
{
    proof {
        reveal_strlit("::");
        reveal_strlit(".");
        reveal_strlit("");
    }
    let ghost s0 = alias_state(*aliases);
    let ghost owner = owner_package_qualified_name@;
    let local = resolve_local_namespace_dot(namespace, owner_package_qualified_name, root_package, packages);
    match local {
        Some(nd) => {
            let alias = after_last_str(nd.as_str(), ".");
            let target = dotted_name_to_qualified_name(nd.as_str(), span);
            let ghost first = seq![AliasBinding::Namespace(alias@, target@)];
            let _ = bind_namespace_alias(aliases, alias.as_str(), target, span, policy);
            let ghost s1 = alias_state(*aliases);
            let prefix = concat2(nd.as_str(), ".");
            bind_child_packages(aliases, packages, prefix.as_str(), span, policy);
            let ghost s2 = alias_state(*aliases);
            bind_child_values(aliases, definition_names, prefix.as_str(), owner_package_qualified_name, "type.", span, policy);
            let ghost s3 = alias_state(*aliases);
            bind_child_values(aliases, usage_names, prefix.as_str(), owner_package_qualified_name, "feature.", span, policy);
            proof {
                let pk = child_package_bindings(packages@, prefix@, *span, packages@.len() as int);
                let df = child_value_bindings(strings_view(definition_names@), prefix@, owner, "type."@, definition_names@.len() as int);
                let us = child_value_bindings(strings_view(usage_names@), prefix@, owner, "feature."@, usage_names@.len() as int);
                assert(apply_bindings(s0, first) == s1) by {
                    lemma_apply_single(s0, first[0]);
                }
                lemma_apply_bindings_concat(s0, first, pk);
                lemma_apply_bindings_concat(s0, first + pk, df);
                lemma_apply_bindings_concat(s0, first + pk + df, us);
            }
        },
        None => {
            let alias = after_last_str(namespace, "::");
            let dotted = replace_str(namespace, "::", ".");
            let target = dotted_name_to_qualified_name(dotted.as_str(), span);
            let ghost first = seq![AliasBinding::Namespace(alias@, target@)];
            let _ = bind_namespace_alias(aliases, alias.as_str(), target, span, policy);
            let ghost s1 = alias_state(*aliases);
            let prefix = concat2(namespace, "::");
            bind_child_values(aliases, stdlib_ids, prefix.as_str(), owner_package_qualified_name, "", span, policy);
            bind_stdlib_aliases(aliases, stdlib_aliases, prefix.as_str(), owner_package_qualified_name, span, policy);
            proof {
                let idb = child_value_bindings(strings_view(stdlib_ids@), prefix@, owner, ""@, stdlib_ids@.len() as int);
                let sab = stdlib_alias_bindings(stdlib_aliases@, prefix@, owner, stdlib_aliases@.len() as int);
                assert(""@ =~= Seq::<char>::empty());
                assert(apply_bindings(s0, first) == s1) by {
                    lemma_apply_single(s0, first[0]);
                }
                lemma_apply_bindings_concat(s0, first, idb);
                lemma_apply_bindings_concat(s0, first + idb, sab);
            }
        },
    }
    Ok(())
}


/// The root package among the first `n`: the first without an owner.
pub open spec fn ownerless_package(packages: Seq<ResolvedPackage>, n: int) -> Option<Seq<char>>
    decreases n,
{
    if n <= 0 {
        None
    } else {
        match ownerless_package(packages, n - 1) {
            Some(q) => Some(q),
            None => if packages[n - 1].owner_package_qualified_name is None {
                Some(packages[n - 1].qualified_name@)
            } else {
                None
            },
        }
    }
}

/// The root package: the first without an owner, else the first.
pub open spec fn root_package_of(packages: Seq<ResolvedPackage>) -> Option<Seq<char>> {
    match ownerless_package(packages, packages.len() as int) {
        Some(q) => Some(q),
        None => if packages.len() > 0 {
            Some(packages[0].qualified_name@)
        } else {
            None
        },
    }
}

/// The bindings one import makes: a wildcard import (`::*` or `::**`)
/// binds what its namespace holds; any other binds its target as a value,
/// under the name it is imported as (else the target's last `::` part).
pub open spec fn import_bindings(
    import: ResolvedImport,
    root: Option<Seq<char>>,
    packages: Seq<ResolvedPackage>,
    definition_names: Seq<Seq<char>>,
    usage_names: Seq<Seq<char>>,
    ids: Seq<Seq<char>>,
    sa: Seq<(Seq<char>, String)>,
) -> Seq<AliasBinding> {
    let t = import.target_id@;
    let owner = match import.owner_package_qualified_name {
        Some(o) => o@,
        None => Seq::empty(),
    };
    if is_suffix("::*"@, t) || is_suffix("::**"@, t) {
        wildcard_bindings(import_prefix(t), owner, root, packages, definition_names, usage_names, ids, sa, import.span)
    } else {
        let alias = match import.imported_name {
            Some(a) => a@,
            None => after_last(t, "::"@),
        };
        value_bindings(owner, alias, t)
    }
}

/// The bindings of the first `n` imports, in order.
pub open spec fn module_import_bindings(
    imports: Seq<ResolvedImport>,
    packages: Seq<ResolvedPackage>,
    definition_names: Seq<Seq<char>>,
    usage_names: Seq<Seq<char>>,
    ids: Seq<Seq<char>>,
    sa: Seq<(Seq<char>, String)>,
    n: int,
) -> Seq<AliasBinding>
    decreases n,
{
    if n <= 0 {
        Seq::empty()
    } else {
        module_import_bindings(imports, packages, definition_names, usage_names, ids, sa, n - 1) + import_bindings(
            imports[n - 1],
            root_package_of(packages),
            packages,
            definition_names,
            usage_names,
            ids,
            sa,
        )
    }
}

/// The root package of a module: the first package without an owner, else
/// the first package.
fn root_package(packages: &[ResolvedPackage]) -> (r: Option<String>)
    ensures
        opt_view(r) == root_package_of(packages@),
{
    let mut i: usize = 0;
    while i < packages.len()
        invariant
            i <= packages@.len(),
            ownerless_package(packages@, i as int) is None,
        decreases packages@.len() - i,
    {
        if packages[i].owner_package_qualified_name.is_none() {
            proof {
                lemma_ownerless_first(packages@, i as int, packages@.len() as int);
            }
            return Some(owned(packages[i].qualified_name.as_str()));
        }
        i = i + 1;
    }
    if packages.len() > 0 {
        Some(owned(packages[0].qualified_name.as_str()))
    } else {
        None
    }
}

proof fn lemma_ownerless_first(packages: Seq<ResolvedPackage>, i: int, n: int)
    requires
        0 <= i < n <= packages.len(),
        ownerless_package(packages, i) is None,
        packages[i].owner_package_qualified_name is None,
    ensures
        ownerless_package(packages, n) == Some(packages[i].qualified_name@),
    decreases n,
{
    if n > i + 1 {
        lemma_ownerless_first(packages, i, n - 1);
    }
}

/// The value and namespace aliases that a module's imports bind, given its
/// packages, the qualified names of its definitions and usages, and the
/// library's ids and aliases.
pub fn build_import_alias_map(
    imports: &[ResolvedImport],
    packages: &[ResolvedPackage],
    definition_names: &[String],
    usage_names: &[String],
    stdlib_ids: &[String],
    stdlib_aliases: &StrMap<String>,
    policy: ResolvePolicy,
) -> (r: Result<ImportAliases, Diagnostic>)
    ensures
        r is Ok,
        alias_state(r->Ok_0) == apply_bindings(
            empty_aliases(),
            module_import_bindings(
                imports@,
                packages@,
                strings_view(definition_names@),
                strings_view(usage_names@),
                strings_view(stdlib_ids@),
                stdlib_aliases@,
                imports@.len() as int,
            ),
        ),
{
    proof {
        reveal_strlit("::*");
        reveal_strlit("::**");
        reveal_strlit("");
    }
    let mut aliases = ImportAliases {
        value_aliases: StrMap::new(),
        namespace_aliases: StrMap::new(),
        ambiguous_value_aliases: StrMap::new(),
        ambiguous_namespace_aliases: StrMap::new(),
    };
    proof {
        let e = alias_state(aliases);
        assert(e.values =~= empty_aliases().values);
        assert(e.ambiguous_values =~= empty_aliases().ambiguous_values);
        assert(e.namespaces =~= empty_aliases().namespaces);
        assert(e.ambiguous_namespaces =~= empty_aliases().ambiguous_namespaces);
    }
    let root = root_package(packages);
    let ghost dn = strings_view(definition_names@);
    let ghost un = strings_view(usage_names@);
    let ghost ids = strings_view(stdlib_ids@);
    let ghost sa = stdlib_aliases@;
    let mut i: usize = 0;
    while i < imports.len()
        invariant
            i <= imports@.len(),
            opt_view(root) == root_package_of(packages@),
            dn == strings_view(definition_names@),
            un == strings_view(usage_names@),
            ids == strings_view(stdlib_ids@),
            sa == stdlib_aliases@,
            alias_state(aliases) == apply_bindings(
                empty_aliases(),
                module_import_bindings(imports@, packages@, dn, un, ids, sa, i as int),
            ),
        decreases imports@.len() - i,
    {
        let import = &imports[i];
        let ghost before = module_import_bindings(imports@, packages@, dn, un, ids, sa, i as int);
        let ghost s0 = alias_state(aliases);
        let owner: &str = match &import.owner_package_qualified_name {
            Some(o) => o.as_str(),
            None => "",
        };
        proof {
            reveal_strlit("");
            assert(owner@ == match import.owner_package_qualified_name {
                Some(o) => o@,
                None => Seq::<char>::empty(),
            });
        }
        let t = import.target_id.as_str();
        if ends_with(t, "::*") || ends_with(t, "::**") {
            let namespace = import_namespace_prefix(t);
            let _ = add_wildcard_import_aliases(
                namespace.as_str(),
                owner,
                &root,
                packages,
                definition_names,
                usage_names,
                stdlib_ids,
                stdlib_aliases,
                &mut aliases,
                &import.span,
                policy,
            );
        } else {
            let alias = match &import.imported_name {
                Some(a) => owned(a.as_str()),
                None => after_last_str(t, "::"),
            };
            bind_value_everywhere(&mut aliases, owner, alias.as_str(), owned(t), &import.span, policy);
        }
        proof {
            assert(imports@[i as int] == *import);
            lemma_apply_bindings_concat(
                empty_aliases(),
                before,
                import_bindings(*import, root_package_of(packages@), packages@, dn, un, ids, sa),
            );
        }
        i = i + 1;
    }
    Ok(aliases)
}


// ------------------------------------------------------------ laws

/// No alias is both bound and ambiguous.
pub open spec fn aliases_consistent(s: AliasState) -> bool {
    &&& forall|q: Seq<char>| s.ambiguous_values.contains(q) ==> !(#[trigger] s.values.contains_key(q))
    &&& forall|q: Seq<char>| s.ambiguous_namespaces.contains(q) ==> !(#[trigger] s.namespaces.contains_key(q))
}

/// Bindings keep the alias maps consistent, and an alias that became
/// ambiguous stays ambiguous and unbound whatever is bound after it.
pub proof fn lemma_ambiguous_aliases_stay_unbound(s: AliasState, bs: Seq<AliasBinding>)
    requires
        aliases_consistent(s),
    ensures
        aliases_consistent(apply_bindings(s, bs)),
        forall|q: Seq<char>| s.ambiguous_values.contains(q) ==> #[trigger] apply_bindings(
            s,
            bs,
        ).ambiguous_values.contains(q),
        forall|q: Seq<char>| s.ambiguous_namespaces.contains(q) ==> #[trigger] apply_bindings(
            s,
            bs,
        ).ambiguous_namespaces.contains(q),
    decreases bs.len(),
{
    if bs.len() > 0 {
        lemma_ambiguous_aliases_stay_unbound(s, bs.drop_last());
    }
}

/// The alias maps that a module's imports bind are consistent: no alias is
/// both bound and ambiguous.
pub proof fn lemma_import_aliases_consistent(bs: Seq<AliasBinding>)
    ensures
        aliases_consistent(apply_bindings(empty_aliases(), bs)),
{
    lemma_ambiguous_aliases_stay_unbound(empty_aliases(), bs);
}

/// Binding a value alias again to the target it already has changes
/// nothing.
pub proof fn lemma_rebinding_value_is_idempotent(s: AliasState, alias: Seq<char>, target: Seq<char>)
    ensures
        apply_binding(apply_binding(s, AliasBinding::Value(alias, target)), AliasBinding::Value(alias, target))
            == apply_binding(s, AliasBinding::Value(alias, target)),
{
    let s1 = apply_binding(s, AliasBinding::Value(alias, target));
    if !s.ambiguous_values.contains(alias) && !(s.values.contains_key(alias) && s.values[alias] != target) {
        assert(s1.values.insert(alias, target) =~= s1.values);
    }
}

// ------------------------------------------------------------ child packages

/// The package `k` is a direct child `c` of `prefix`: its qualified name
/// is `prefix` followed by the one segment `c`.
pub open spec fn child_named(packages: Seq<ResolvedPackage>, prefix: Seq<char>, k: int, c: Seq<char>) -> bool {
    &&& 0 <= k < packages.len()
    &&& packages[k].qualified_name@ == prefix + c
    &&& c.len() > 0
    &&& !c.contains('.')
    &&& !has_sub(c, "::"@)
}

/// The binding of package `k` as namespace `c`.
pub open spec fn child_binding(packages: Seq<ResolvedPackage>, k: int, c: Seq<char>, span: SourceSpan) -> AliasBinding {
    AliasBinding::Namespace(c, QualifiedNameView { segments: split_on(packages[k].qualified_name@, "."@), span })
}

/// Each package among the first `n` that is a direct child `c` of `prefix`
/// is bound as namespace `c` to its own qualified name.
pub proof fn lemma_child_packages_bound(
    packages: Seq<ResolvedPackage>,
    prefix: Seq<char>,
    span: SourceSpan,
    n: int,
    k: int,
    c: Seq<char>,
)
    requires
        child_named(packages, prefix, k, c),
        k < n <= packages.len(),
    ensures
        child_package_bindings(packages, prefix, span, n).contains(child_binding(packages, k, c, span)),
    decreases n,
{
    let q = packages[k].qualified_name@;
    if k == n - 1 {
        assert(is_prefix(prefix, q)) by {
            assert(q.subrange(0, prefix.len() as int) =~= prefix);
        }
        assert(q.skip(prefix.len() as int) =~= c);
        assert(direct_child(q, prefix) == Some(c));
        let bs = child_package_bindings(packages, prefix, span, n);
        let before = child_package_bindings(packages, prefix, span, n - 1);
        assert(bs[before.len() as int] == child_binding(packages, k, c, span));
    } else {
        lemma_child_packages_bound(packages, prefix, span, n - 1, k, c);
        let before = child_package_bindings(packages, prefix, span, n - 1);
        let j = choose|j: int| 0 <= j < before.len() && before[j] == child_binding(packages, k, c, span);
        assert(child_package_bindings(packages, prefix, span, n)[j] == before[j]);
    }
}

/// Once a namespace alias has been bound, it stays bound or becomes
/// ambiguous whatever is bound after it.
pub proof fn lemma_namespace_stays_bound_or_ambiguous(s: AliasState, bs: Seq<AliasBinding>, c: Seq<char>)
    requires
        s.namespaces.contains_key(c) || s.ambiguous_namespaces.contains(c),
    ensures
        apply_bindings(s, bs).namespaces.contains_key(c) || apply_bindings(s, bs).ambiguous_namespaces.contains(c),
    decreases bs.len(),
{
    if bs.len() > 0 {
        lemma_namespace_stays_bound_or_ambiguous(s, bs.drop_last(), c);
    }
}

/// A namespace binding of alias `c` in `bs` leaves `c` bound, or ambiguous
/// when another binding disagrees with it.
pub proof fn lemma_namespace_binding_takes(s: AliasState, bs: Seq<AliasBinding>, c: Seq<char>, target: QualifiedNameView)
    requires
        bs.contains(AliasBinding::Namespace(c, target)),
    ensures
        apply_bindings(s, bs).namespaces.contains_key(c) || apply_bindings(s, bs).ambiguous_namespaces.contains(c),
    decreases bs.len(),
{
    if bs.last() == AliasBinding::Namespace(c, target) {
    } else {
        let j = choose|j: int| 0 <= j < bs.len() && bs[j] == AliasBinding::Namespace(c, target);
        assert(bs.drop_last()[j] == bs[j]);
        lemma_namespace_binding_takes(s, bs.drop_last(), c, target);
        lemma_namespace_stays_bound_or_ambiguous(apply_bindings(s, bs.drop_last()), seq![bs.last()], c);
        assert(apply_bindings(apply_bindings(s, bs.drop_last()), seq![bs.last()]) == apply_bindings(s, bs)) by {
            lemma_apply_bindings_concat(s, bs.drop_last(), seq![bs.last()]);
            assert(bs.drop_last() + seq![bs.last()] =~= bs);
        }
    }
}

/// The bindings of the first `n` imports hold those of each import among
/// them.
proof fn lemma_module_bindings_hold(
    imports: Seq<ResolvedImport>,
    packages: Seq<ResolvedPackage>,
    definition_names: Seq<Seq<char>>,
    usage_names: Seq<Seq<char>>,
    ids: Seq<Seq<char>>,
    sa: Seq<(Seq<char>, String)>,
    n: int,
    i: int,
    b: AliasBinding,
)
    requires
        0 <= i < n <= imports.len(),
        import_bindings(imports[i], root_package_of(packages), packages, definition_names, usage_names, ids, sa).contains(b),
    ensures
        module_import_bindings(imports, packages, definition_names, usage_names, ids, sa, n).contains(b),
    decreases n,
{
    let all = module_import_bindings(imports, packages, definition_names, usage_names, ids, sa, n);
    let before = module_import_bindings(imports, packages, definition_names, usage_names, ids, sa, n - 1);
    if i == n - 1 {
        let mine = import_bindings(imports[i], root_package_of(packages), packages, definition_names, usage_names, ids, sa);
        let j = choose|j: int| 0 <= j < mine.len() && mine[j] == b;
        assert(all[before.len() + j] == b);
    } else {
        lemma_module_bindings_hold(imports, packages, definition_names, usage_names, ids, sa, n - 1, i, b);
        let j = choose|j: int| 0 <= j < before.len() && before[j] == b;
        assert(all[j] == b);
    }
}

/// A wildcard import of a package of the module brings that package's
/// direct child packages in as namespaces: after a module's imports, each
/// such child `c` is bound as a namespace alias, or is ambiguous.
pub proof fn lemma_wildcard_binds_child_packages(
    imports: Seq<ResolvedImport>,
    packages: Seq<ResolvedPackage>,
    definition_names: Seq<Seq<char>>,
    usage_names: Seq<Seq<char>>,
    ids: Seq<Seq<char>>,
    sa: Seq<(Seq<char>, String)>,
    i: int,
    nd: Seq<char>,
    k: int,
    c: Seq<char>,
)
    requires
        0 <= i < imports.len(),
        is_suffix("::*"@, imports[i].target_id@) || is_suffix("::**"@, imports[i].target_id@),
        local_namespace(
            import_prefix(imports[i].target_id@),
            match imports[i].owner_package_qualified_name {
                Some(o) => o@,
                None => Seq::empty(),
            },
            root_package_of(packages),
            packages,
        ) == Some(nd),
        child_named(packages, nd + "."@, k, c),
    ensures
        ({
            let st = apply_bindings(
                empty_aliases(),
                module_import_bindings(imports, packages, definition_names, usage_names, ids, sa, imports.len() as int),
            );
            st.namespaces.contains_key(c) || st.ambiguous_namespaces.contains(c)
        }),
{
    let span = imports[i].span;
    let b = child_binding(packages, k, c, span);
    lemma_child_packages_bound(packages, nd + "."@, span, packages.len() as int, k, c);
    let owner = match imports[i].owner_package_qualified_name {
        Some(o) => o@,
        None => Seq::<char>::empty(),
    };
    let w = wildcard_bindings(
        import_prefix(imports[i].target_id@),
        owner,
        root_package_of(packages),
        packages,
        definition_names,
        usage_names,
        ids,
        sa,
        imports[i].span,
    );
    let head = seq![
        AliasBinding::Namespace(after_last(nd, "."@), QualifiedNameView { segments: split_on(nd, "."@), span }),
    ];
    let kids = child_package_bindings(packages, nd + "."@, span, packages.len() as int);
    let j = choose|j: int| 0 <= j < kids.len() && kids[j] == b;
    assert(w[head.len() + j] == b);
    lemma_module_bindings_hold(imports, packages, definition_names, usage_names, ids, sa, imports.len() as int, i, b);
    let tgt = QualifiedNameView { segments: split_on(packages[k].qualified_name@, "."@), span };
    lemma_namespace_binding_takes(
        empty_aliases(),
        module_import_bindings(imports, packages, definition_names, usage_names, ids, sa, imports.len() as int),
        c,
        tgt,
    );
}

} // verus!
