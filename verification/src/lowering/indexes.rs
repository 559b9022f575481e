//! Feature indexes over the standard library: the features an owner has,
//! its own and those it inherits through specialization.
use vstd::prelude::*;

use crate::kerml::ast::{QualifiedName, QualifiedNameView, strings_view};
use crate::kerml::token::Diagnostic;
use crate::lowering::bundle::{MappingBundle, MappingView};
use crate::lowering::collect::{
    CollectedAlias, CollectedDefinition, CollectedUsage, CollectedUsageView, cusage_view, cusages_view,
    lemma_cusages_view_index,
};
use crate::text::{concat2, concat3, last_index, owned, rsplit_once_str};
use crate::strmap::{
    StrMap, StrSet, has_key, keys_sorted, lemma_lookup_at, lemma_sorted_lookup_unique, lookup,
    str_lookup,
};

verus! {

/// Feature `name` with id `id` is a direct feature of some owner.
pub open spec fn direct_entry(
    direct: Seq<(Seq<char>, StrMap<String>)>,
    name: Seq<char>,
    id: Seq<char>,
) -> bool {
    exists|o: Seq<char>| #[trigger]
        lookup(direct, o) matches Some(m) && str_lookup(m@, name) == Some(id)
}

/// Every feature of `m` is a direct feature of some owner.
pub open spec fn made_of_direct(
    m: Seq<(Seq<char>, String)>,
    direct: Seq<(Seq<char>, StrMap<String>)>,
) -> bool {
    forall|name: Seq<char>| #[trigger]
        str_lookup(m, name) matches Some(id) ==> direct_entry(direct, name, id)
}

/// `m` has every direct feature of `owner`, with its own id.
pub open spec fn keeps_direct(
    owner: Seq<char>,
    m: Seq<(Seq<char>, String)>,
    direct: Seq<(Seq<char>, StrMap<String>)>,
) -> bool {
    match lookup(direct, owner) {
        Some(d) => forall|name: Seq<char>| #[trigger]
            str_lookup(d@, name) is Some ==> str_lookup(m, name) == str_lookup(d@, name),
        None => true,
    }
}

/// Every cached feature map is made of direct features and keeps its
/// owner's own.
pub open spec fn cache_ok(
    resolved: Seq<(Seq<char>, StrMap<String>)>,
    direct: Seq<(Seq<char>, StrMap<String>)>,
) -> bool {
    forall|o: Seq<char>| #[trigger]
        lookup(resolved, o) matches Some(m) ==> made_of_direct(m@, direct) && keeps_direct(
            o,
            m@,
            direct,
        )
}

/// `p` has a direct feature named `n`.
pub open spec fn parent_has(direct: Seq<(Seq<char>, StrMap<String>)>, p: Seq<char>, n: Seq<char>) -> bool {
    lookup(direct, p) matches Some(d) && str_lookup(d@, n) is Some
}

/// `m` has a feature named like each direct feature of each parent of
/// `owner`.
pub open spec fn inherits_parents(
    owner: Seq<char>,
    m: Seq<(Seq<char>, String)>,
    direct: Seq<(Seq<char>, StrMap<String>)>,
    specs: Seq<(Seq<char>, Vec<String>)>,
) -> bool {
    match lookup(specs, owner) {
        Some(ps) => forall|j: int, n: Seq<char>|
            0 <= j < ps@.len() && #[trigger] parent_has(direct, ps@[j]@, n) ==> str_lookup(m, n) is Some,
        None => true,
    }
}

/// Every cached feature map inherits from its owner's parents.
pub open spec fn cache_inherits(
    resolved: Seq<(Seq<char>, StrMap<String>)>,
    direct: Seq<(Seq<char>, StrMap<String>)>,
    specs: Seq<(Seq<char>, Vec<String>)>,
) -> bool {
    forall|o: Seq<char>| #[trigger]
        lookup(resolved, o) matches Some(m) ==> inherits_parents(o, m@, direct, specs)
}

/// Every owner a specialization map mentions, with repeats: each key, then
/// its parents.
pub open spec fn owner_list(specs: Seq<(Seq<char>, Vec<String>)>) -> Seq<Seq<char>>
    decreases specs.len(),
{
    if specs.len() == 0 {
        Seq::empty()
    } else {
        owner_list(specs.drop_last()) + seq![specs.last().0] + strings_view(specs.last().1@)
    }
}

/// How many entries of `list` are not yet being resolved.
pub open spec fn unresolved(list: Seq<Seq<char>>, resolving: Seq<(Seq<char>, ())>) -> nat
    decreases list.len(),
{
    if list.len() == 0 {
        0
    } else {
        unresolved(list.drop_last(), resolving) + if has_key(resolving, list.last()) {
            0nat
        } else {
            1nat
        }
    }
}

proof fn lemma_owner_listed(specs: Seq<(Seq<char>, Vec<String>)>, o: Seq<char>)
    requires
        has_key(specs, o),
    ensures
        owner_list(specs).contains(o),
    decreases specs.len(),
{
    let j = choose|j: int| 0 <= j < specs.len() && (#[trigger] specs[j]).0 == o;
    let l = owner_list(specs);
    let p = owner_list(specs.drop_last());
    if j == specs.len() - 1 {
        assert(l[p.len() as int] == o);
    } else {
        assert(specs.drop_last()[j] == specs[j]);
        lemma_owner_listed(specs.drop_last(), o);
        let k = choose|k: int| 0 <= k < p.len() && p[k] == o;
        assert(l[k] == o);
    }
}

proof fn lemma_unresolved_shrinks(
    list: Seq<Seq<char>>,
    before: Seq<(Seq<char>, ())>,
    after: Seq<(Seq<char>, ())>,
    o: Seq<char>,
)
    requires
        forall|q: Seq<char>| has_key(before, q) ==> #[trigger] has_key(after, q),
        has_key(after, o),
    ensures
        unresolved(list, after) <= unresolved(list, before),
        list.contains(o) && !has_key(before, o) ==> unresolved(list, after) < unresolved(
            list,
            before,
        ),
    decreases list.len(),
{
    if list.len() > 0 {
        let p = list.drop_last();
        lemma_unresolved_shrinks(p, before, after, o);
        if list.contains(o) && !has_key(before, o) && list.last() != o {
            let k = choose|k: int| 0 <= k < list.len() && list[k] == o;
            assert(p[k] == o);
        }
    }
}

/// The features of library owner `owner`: those inherited from each of its
/// parents in turn (the first parent to give a name wins), then its own.
/// Results are cached in `resolved`; an owner met again while it is being
/// resolved contributes only its own features.
pub fn collect_stdlib_owner_features(
    owner: &str,
    direct_features: &StrMap<StrMap<String>>,
    specializations: &StrMap<Vec<String>>,
    resolved: &mut StrMap<StrMap<String>>,
    resolving: &mut StrSet,
) -> (r: StrMap<String>)
    requires
        cache_ok(old(resolved)@, direct_features@),
        cache_inherits(old(resolved)@, direct_features@, specializations@),
    ensures
        cache_ok(final(resolved)@, direct_features@),
        cache_inherits(final(resolved)@, direct_features@, specializations@),
        forall|o: Seq<char>| #[trigger]
            has_key(old(resolved)@, o) ==> lookup(final(resolved)@, o) == lookup(old(resolved)@, o),
        final(resolving)@ == old(resolving)@,
        made_of_direct(r@, direct_features@),
        keeps_direct(owner@, r@, direct_features@),
        !has_key(old(resolving)@, owner@) ==> has_key(final(resolved)@, owner@),
    decreases unresolved(owner_list(specializations@), old(resolving)@),
{
    let ghost direct = direct_features@;
    let ghost res0 = resolving@;
    let ghost cache0 = resolved@;
    let _ = resolving.len();
    match resolved.get(owner) {
        Some(existing) => {
            return existing.copy();
        },
        None => {},
    }
    if resolving.contains_key(owner) {
        return match direct_features.get(owner) {
            Some(d) => {
                let r = d.copy();
                proof {
                    assert forall|name: Seq<char>| #[trigger]
                        str_lookup(r@, name) is Some implies direct_entry(
                        direct,
                        name,
                        str_lookup(r@, name)->Some_0,
                    ) by {
                        assert(lookup(direct, owner@) == Some(*d));
                    }
                }
                r
            },
            None => {
                let r: StrMap<String> = StrMap::new();
                r
            },
        };
    }
    resolving.insert(String::from_str(owner), ());
    let ghost res1 = resolving@;
    let mut features: StrMap<String> = StrMap::new();
    match specializations.get(owner) {
        Some(parents) => {
            proof {
                assert(has_key(specializations@, owner@));
                lemma_owner_listed(specializations@, owner@);
                assert forall|q: Seq<char>| has_key(res0, q) implies #[trigger] has_key(res1, q) by {
                    assert(lookup(res1, q) == if q == owner@ {
                        Some(())
                    } else {
                        lookup(res0, q)
                    });
                }
                assert(lookup(res1, owner@) == Some(()));
                lemma_unresolved_shrinks(owner_list(specializations@), res0, res1, owner@);
            }
            let mut i: usize = 0;
            while i < parents.len()
                invariant
                    i <= parents@.len(),
                    direct == direct_features@,
                    res0 == old(resolving)@,
                    resolving@ == res1,
                    unresolved(owner_list(specializations@), res1) < unresolved(
                        owner_list(specializations@),
                        res0,
                    ),
                    cache_ok(resolved@, direct),
                    cache_inherits(resolved@, direct, specializations@),
                    forall|o: Seq<char>| #[trigger]
                        has_key(cache0, o) ==> lookup(resolved@, o) == lookup(cache0, o),
                    made_of_direct(features@, direct),
                    forall|j: int, n: Seq<char>|
                        0 <= j < i && #[trigger] parent_has(direct, parents@[j]@, n) ==> str_lookup(features@, n) is Some,
                decreases parents@.len() - i,
            {
                let inherited = collect_stdlib_owner_features(
                    parents[i].as_str(),
                    direct_features,
                    specializations,
                    resolved,
                    resolving,
                );
                let m = inherited.len();
                let ghost fstart = features@;
                let mut k: usize = 0;
                while k < m
                    invariant
                        k <= m,
                        m == inherited@.len(),
                        keys_sorted(inherited@),
                        made_of_direct(inherited@, direct),
                        made_of_direct(features@, direct),
                        forall|n: Seq<char>| #[trigger] str_lookup(fstart, n) is Some ==> str_lookup(features@, n) is Some,
                        forall|q: int| 0 <= q < k ==> str_lookup(features@, (#[trigger] inherited@[q]).0) is Some,
                    decreases m - k,
                {
                    let name = inherited.key_at(k);
                    if !features.contains_key(name.as_str()) {
                        let ghost before = features@;
                        let value = inherited.value_at(k).clone();
                        proof {
                            lemma_lookup_at(inherited@, k as int);
                            assert(str_lookup(inherited@, name@) == Some(value@));
                        }
                        features.insert(name.clone(), value);
                        proof {
                            assert forall|n: Seq<char>| #[trigger]
                                str_lookup(features@, n) is Some implies direct_entry(
                                direct,
                                n,
                                str_lookup(features@, n)->Some_0,
                            ) by {
                                if n != name@ {
                                    assert(str_lookup(features@, n) == str_lookup(before, n));
                                }
                            }
                            assert forall|n: Seq<char>| #[trigger] str_lookup(before, n) is Some implies str_lookup(
                                features@,
                                n,
                            ) is Some by {
                                if n != name@ {
                                    assert(str_lookup(features@, n) == str_lookup(before, n));
                                }
                            }
                            assert(str_lookup(features@, name@) is Some);
                        }
                    } else {
                        assert(has_key(features@, name@));
                        assert(lookup(features@, name@) is Some);
                    }
                    k = k + 1;
                }
                proof {
                    assert(keeps_direct(parents@[i as int]@, inherited@, direct));
                    assert forall|j: int, n: Seq<char>|
                        0 <= j < i + 1 && #[trigger] parent_has(direct, parents@[j]@, n) implies str_lookup(
                        features@,
                        n,
                    ) is Some by {
                        if j == i {
                            assert(str_lookup(inherited@, n) is Some);
                            assert(has_key(inherited@, n));
                            let q = choose|q: int| 0 <= q < inherited@.len() && (#[trigger] inherited@[q]).0 == n;
                            assert(str_lookup(features@, inherited@[q].0) is Some);
                        } else {
                            assert(str_lookup(fstart, n) is Some);
                        }
                    }
                }
                i = i + 1;
            }
            assert(inherits_parents(owner@, features@, direct, specializations@));
        },
        None => {
            assert(inherits_parents(owner@, features@, direct, specializations@));
        },
    }
    let ghost fov = features@;
    match direct_features.get(owner) {
        Some(local) => {
            let m = local.len();
            let mut k: usize = 0;
            while k < m
                invariant
                    k <= m,
                    m == local@.len(),
                    keys_sorted(local@),
                    direct == direct_features@,
                    lookup(direct, owner@) == Some(*local),
                    made_of_direct(features@, direct),
                    forall|n: Seq<char>| #[trigger] str_lookup(fov, n) is Some ==> str_lookup(features@, n) is Some,
                    forall|j: int|
                        0 <= j < k ==> str_lookup(features@, (#[trigger] local@[j]).0) == Some(
                            local@[j].1@,
                        ),
                decreases m - k,
            {
                let ghost before = features@;
                let key = local.key_at(k).clone();
                let value = local.value_at(k).clone();
                proof {
                    lemma_lookup_at(local@, k as int);
                }
                features.insert(key, value);
                proof {
                    assert forall|n: Seq<char>| #[trigger] str_lookup(fov, n) is Some implies str_lookup(features@, n) is Some by {
                        if n != local@[k as int].0 {
                            assert(str_lookup(features@, n) == str_lookup(before, n));
                        }
                    }
                    assert forall|n: Seq<char>| #[trigger]
                        str_lookup(features@, n) is Some implies direct_entry(
                        direct,
                        n,
                        str_lookup(features@, n)->Some_0,
                    ) by {
                        if n == local@[k as int].0 {
                            assert(str_lookup(local@, n) == str_lookup(features@, n));
                        } else {
                            assert(str_lookup(features@, n) == str_lookup(before, n));
                        }
                    }
                    assert forall|j: int| 0 <= j < k + 1 implies str_lookup(
                        features@,
                        (#[trigger] local@[j]).0,
                    ) == Some(local@[j].1@) by {
                        if j < k {
                            assert(local@[j].0 != local@[k as int].0) by {
                                assert(crate::text_order::seq_lt(local@[j].0, local@[k as int].0));
                                crate::text_order::lemma_seq_lt_irreflexive(local@[j].0);
                            }
                        }
                    }
                }
                k = k + 1;
            }
            proof {
                assert forall|name: Seq<char>| #[trigger]
                    str_lookup(local@, name) is Some implies str_lookup(features@, name) == str_lookup(
                    local@,
                    name,
                ) by {
                    let j = choose|j: int| 0 <= j < local@.len() && (#[trigger] local@[j]).0 == name;
                    lemma_lookup_at(local@, j);
                }
            }
        },
        None => {},
    }
    resolving.remove(owner);
    proof {
        assert forall|q: Seq<char>| #[trigger] lookup(resolving@, q) == lookup(res0, q) by {
            if q == owner@ {
                assert(!has_key(res0, q));
            }
        }
        lemma_sorted_lookup_unique(resolving@, res0);
    }
    let ghost before_cache = resolved@;
    assert(inherits_parents(owner@, fov, direct, specializations@));
    assert(inherits_parents(owner@, features@, direct, specializations@)) by {
        match lookup(specializations@, owner@) {
            Some(ps) => {
                assert forall|j: int, n: Seq<char>|
                    0 <= j < ps@.len() && #[trigger] parent_has(direct, ps@[j]@, n) implies str_lookup(features@, n) is Some by {
                    assert(str_lookup(fov, n) is Some);
                }
            },
            None => {},
        }
    }
    resolved.insert(String::from_str(owner), features.copy());
    proof {
        assert forall|o: Seq<char>| #[trigger] lookup(resolved@, o) is Some implies inherits_parents(
            o,
            lookup(resolved@, o)->Some_0@,
            direct,
            specializations@,
        ) by {
            if o != owner@ {
                assert(lookup(resolved@, o) == lookup(before_cache, o));
            }
        }
        assert forall|o: Seq<char>| #[trigger]
            lookup(resolved@, o) is Some implies made_of_direct(
            lookup(resolved@, o)->Some_0@,
            direct,
        ) && keeps_direct(o, lookup(resolved@, o)->Some_0@, direct) by {
            if o != owner@ {
                assert(lookup(resolved@, o) == lookup(before_cache, o));
            }
        }
        assert forall|o: Seq<char>| #[trigger] has_key(cache0, o) implies lookup(resolved@, o)
            == lookup(cache0, o) by {
            assert(o != owner@);
        }
        assert(lookup(resolved@, owner@) is Some);
    }
    features
}


// ------------------------------------------------------------ local aliases

/// The last of the first `n` aliases declared under qualified name `k`.
pub open spec fn last_alias_named(a: Seq<CollectedAlias>, k: Seq<char>, n: int) -> Option<int>
    decreases n,
{
    if n <= 0 {
        None
    } else if a[n - 1].qualified_name@ == k {
        Some(n - 1)
    } else {
        last_alias_named(a, k, n - 1)
    }
}

/// The first of the first `n` aliases declared under simple name `k`.
pub open spec fn first_alias_declared(a: Seq<CollectedAlias>, k: Seq<char>, n: int) -> Option<int>
    decreases n,
{
    if n <= 0 {
        None
    } else {
        match first_alias_declared(a, k, n - 1) {
            Some(i) => Some(i),
            None => if a[n - 1].declared_name@ == k {
                Some(n - 1)
            } else {
                None
            },
        }
    }
}

/// Two of the first `n` aliases are declared under simple name `k`.
pub open spec fn alias_declared_twice(a: Seq<CollectedAlias>, k: Seq<char>, n: int) -> bool
    decreases n,
{
    n > 0 && ((a[n - 1].declared_name@ == k && first_alias_declared(a, k, n - 1) is Some)
        || alias_declared_twice(a, k, n - 1))
}

/// What name `k` stands for among the local aliases `a`: the target of the
/// last alias with that qualified name; else, when exactly one alias was
/// declared under the simple name `k`, its target.
pub open spec fn local_alias_target(a: Seq<CollectedAlias>, k: Seq<char>) -> Option<QualifiedNameView> {
    match last_alias_named(a, k, a.len() as int) {
        Some(i) => Some(a[i].target@),
        None => if alias_declared_twice(a, k, a.len() as int) {
            None
        } else {
            match first_alias_declared(a, k, a.len() as int) {
                Some(i) => Some(a[i].target@),
                None => None,
            }
        },
    }
}

/// The view of the name that `s` maps `k` to.
pub open spec fn name_lookup(s: Seq<(Seq<char>, QualifiedName)>, k: Seq<char>) -> Option<QualifiedNameView> {
    match lookup(s, k) {
        Some(q) => Some(q@),
        None => None,
    }
}

proof fn lemma_first_declared_bounds(a: Seq<CollectedAlias>, k: Seq<char>, n: int)
    ensures
        first_alias_declared(a, k, n) matches Some(i) ==> 0 <= i < n && a[i].declared_name@ == k,
    decreases n,
{
    if n > 0 {
        lemma_first_declared_bounds(a, k, n - 1);
    }
}

proof fn lemma_last_named_bounds(a: Seq<CollectedAlias>, k: Seq<char>, n: int)
    ensures
        last_alias_named(a, k, n) matches Some(i) ==> 0 <= i < n,
    decreases n,
{
    if n > 0 {
        lemma_last_named_bounds(a, k, n - 1);
    }
}

/// The names the module's own aliases resolve: each alias by its qualified
/// name, and by its simple name where no other alias shares that name and
/// no qualified name takes it.
pub fn build_local_alias_map(aliases: &[CollectedAlias]) -> (r: StrMap<QualifiedName>)
    ensures
        forall|k: Seq<char>| #[trigger] name_lookup(r@, k) == local_alias_target(aliases@, k),
{
    let ghost a = aliases@;
    let mut resolved: StrMap<QualifiedName> = StrMap::new();
    let mut simple: StrMap<QualifiedName> = StrMap::new();
    let mut duplicates: StrSet = StrMap::new();
    let mut i: usize = 0;
    while i < aliases.len()
        invariant
            a == aliases@,
            i <= a.len(),
            forall|k: Seq<char>| #[trigger]
                name_lookup(resolved@, k) == match last_alias_named(a, k, i as int) {
                    Some(j) => Some(a[j].target@),
                    None => None,
                },
            forall|k: Seq<char>| #[trigger]
                name_lookup(simple@, k) == match first_alias_declared(a, k, i as int) {
                    Some(j) => Some(a[j].target@),
                    None => None,
                },
            forall|k: Seq<char>| #[trigger]
                has_key(duplicates@, k) == alias_declared_twice(a, k, i as int),
        decreases a.len() - i,
    {
        let alias = &aliases[i];
        let ghost n = i as int;
        let ghost d0 = duplicates@;
        let ghost s0 = simple@;
        let ghost r0 = resolved@;
        let target = alias.target.copy();
        resolved.insert(owned(alias.qualified_name.as_str()), target);
        let present = simple.contains_key(alias.declared_name.as_str());
        if present {
            duplicates.insert(owned(alias.declared_name.as_str()), ());
        } else {
            simple.insert(owned(alias.declared_name.as_str()), alias.target.copy());
        }
        i = i + 1;
        proof {
            assert forall|k: Seq<char>| #[trigger]
                name_lookup(resolved@, k) == match last_alias_named(a, k, i as int) {
                    Some(j) => Some(a[j].target@),
                    None => None,
                } by {
                assert(name_lookup(r0, k) == match last_alias_named(a, k, n) {
                    Some(j) => Some(a[j].target@),
                    None => None,
                });
                assert(lookup(resolved@, k) == if k == a[n].qualified_name@ {
                    Some(target)
                } else {
                    lookup(r0, k)
                });
                if k == a[n].qualified_name@ {
                    assert(last_alias_named(a, k, i as int) == Some(n));
                }
            }
            assert forall|k: Seq<char>| #[trigger]
                name_lookup(simple@, k) == match first_alias_declared(a, k, i as int) {
                    Some(j) => Some(a[j].target@),
                    None => None,
                } by {
                assert(name_lookup(s0, k) == match first_alias_declared(a, k, n) {
                    Some(j) => Some(a[j].target@),
                    None => None,
                });
            }
            assert forall|k: Seq<char>| #[trigger]
                has_key(duplicates@, k) == alias_declared_twice(a, k, i as int) by {
                assert(name_lookup(s0, k) == match first_alias_declared(a, k, n) {
                    Some(j) => Some(a[j].target@),
                    None => None,
                });
                assert(has_key(d0, k) == alias_declared_twice(a, k, n));
                if present {
                    assert(lookup(duplicates@, k) == if k == a[n].declared_name@ {
                        Some(())
                    } else {
                        lookup(d0, k)
                    });
                }
            }
        }
    }
    let ghost r1 = resolved@;
    let ghost s1 = simple@;
    let nd = duplicates.len();
    let mut j: usize = 0;
    while j < nd
        invariant
            nd == duplicates@.len(),
            j <= nd,
            forall|k: Seq<char>| #[trigger]
                name_lookup(simple@, k) == if exists|m: int| 0 <= m < j && (#[trigger] duplicates@[m]).0 == k {
                    None
                } else {
                    name_lookup(s1, k)
                },
        decreases nd - j,
    {
        let ghost sp = simple@;
        let ghost kd = duplicates@[j as int].0;
        let _ = simple.remove(duplicates.key_at(j).as_str());
        j = j + 1;
        proof {
            assert forall|k: Seq<char>| #[trigger] lookup(simple@, k) == if k == kd {
                None
            } else {
                lookup(sp, k)
            } by {}
            assert forall|k: Seq<char>| #[trigger]
                name_lookup(simple@, k) == if exists|m: int| 0 <= m < j && (#[trigger] duplicates@[m]).0 == k {
                    None
                } else {
                    name_lookup(s1, k)
                } by {
                assert(name_lookup(sp, k) == if exists|m: int| 0 <= m < j - 1 && (#[trigger] duplicates@[m]).0 == k {
                    None
                } else {
                    name_lookup(s1, k)
                });
                if exists|m: int| 0 <= m < j && (#[trigger] duplicates@[m]).0 == k {
                    let m = choose|m: int| 0 <= m < j && (#[trigger] duplicates@[m]).0 == k;
                    if m < j - 1 {
                        assert(exists|m2: int| 0 <= m2 < j - 1 && (#[trigger] duplicates@[m2]).0 == k);
                    }
                } else {
                    assert(!(exists|m2: int| 0 <= m2 < j - 1 && (#[trigger] duplicates@[m2]).0 == k)) by {
                        if exists|m2: int| 0 <= m2 < j - 1 && (#[trigger] duplicates@[m2]).0 == k {
                            let m2 = choose|m2: int| 0 <= m2 < j - 1 && (#[trigger] duplicates@[m2]).0 == k;
                            assert(0 <= m2 < j && duplicates@[m2].0 == k);
                        }
                    }
                }
            }
        }
    }
    let ghost s2 = simple@;
    proof {
        assert forall|k: Seq<char>| #[trigger] name_lookup(s2, k) == if alias_declared_twice(a, k, a.len() as int) {
            None
        } else {
            name_lookup(s1, k)
        } by {
            if has_key(duplicates@, k) {
                let m = choose|m: int| 0 <= m < duplicates@.len() && (#[trigger] duplicates@[m]).0 == k;
                assert(0 <= m < nd && duplicates@[m].0 == k);
            }
        }
    }
    let ns = simple.len();
    let mut t: usize = 0;
    while t < ns
        invariant
            ns == s2.len(),
            s2 == simple@,
            keys_sorted(s2),
            t <= ns,
            forall|k: Seq<char>| #[trigger]
                name_lookup(resolved@, k) == if has_key(r1, k) {
                    name_lookup(r1, k)
                } else if exists|m: int| 0 <= m < t && (#[trigger] s2[m]).0 == k {
                    name_lookup(s2, k)
                } else {
                    None
                },
        decreases ns - t,
    {
        let key = simple.key_at(t);
        let ghost rp = resolved@;
        let ghost kt = s2[t as int].0;
        let present = resolved.contains_key(key.as_str());
        if !present {
            let v = simple.value_at(t).copy();
            resolved.insert(owned(key.as_str()), v);
            proof {
                assert forall|q: Seq<char>| #[trigger] name_lookup(resolved@, q) == if q == kt {
                    Some(s2[t as int].1@)
                } else {
                    name_lookup(rp, q)
                } by {
                    assert(lookup(resolved@, q) == if q == kt {
                        Some(v)
                    } else {
                        lookup(rp, q)
                    });
                }
            }
        }
        proof {
            lemma_lookup_at(s2, t as int);
        }
        t = t + 1;
        proof {
            assert forall|k: Seq<char>| #[trigger]
                name_lookup(resolved@, k) == if has_key(r1, k) {
                    name_lookup(r1, k)
                } else if exists|m: int| 0 <= m < t && (#[trigger] s2[m]).0 == k {
                    name_lookup(s2, k)
                } else {
                    None
                } by {
                assert(name_lookup(rp, k) == if has_key(r1, k) {
                    name_lookup(r1, k)
                } else if exists|m: int| 0 <= m < t - 1 && (#[trigger] s2[m]).0 == k {
                    name_lookup(s2, k)
                } else {
                    None
                });
                if k == kt {
                    assert(s2[t - 1].0 == k);
                }
                if exists|m: int| 0 <= m < t && (#[trigger] s2[m]).0 == k {
                    let m = choose|m: int| 0 <= m < t && (#[trigger] s2[m]).0 == k;
                    if m < t - 1 {
                        assert(exists|m2: int| 0 <= m2 < t - 1 && (#[trigger] s2[m2]).0 == k);
                    }
                } else {
                    assert(k != kt);
                    assert(!(exists|m2: int| 0 <= m2 < t - 1 && (#[trigger] s2[m2]).0 == k)) by {
                        if exists|m2: int| 0 <= m2 < t - 1 && (#[trigger] s2[m2]).0 == k {
                            let m2 = choose|m2: int| 0 <= m2 < t - 1 && (#[trigger] s2[m2]).0 == k;
                            assert(0 <= m2 < t && s2[m2].0 == k);
                        }
                    }
                }
            }
        }
    }
    proof {
        assert forall|k: Seq<char>| #[trigger] name_lookup(resolved@, k) == local_alias_target(a, k) by {
            lemma_last_named_bounds(a, k, a.len() as int);
            lemma_first_declared_bounds(a, k, a.len() as int);
            if has_key(s2, k) {
                let m = choose|m: int| 0 <= m < s2.len() && (#[trigger] s2[m]).0 == k;
                assert(0 <= m < ns && s2[m].0 == k);
            }
            if has_key(r1, k) {
                assert(lookup(r1, k) is Some);
            }
        }
    }
    resolved
}


// ------------------------------------------------------------ local definitions

/// Whether definitions of `construct` generate a companion definition.
pub open spec fn has_companion(m: MappingView, construct: Seq<char>) -> bool {
    lookup(m.semantic_defaults.definition_companion_policies@, construct) matches Some(p)
        && p.generated_companion_construct is Some
}

/// The names a definition adds to the local definition map, with their ids,
/// in order: its qualified name; for one that generates a companion, the
/// companion's `~name`, also qualified by the definition's owner.
pub open spec fn definition_entries(d: CollectedDefinition, m: MappingView) -> Seq<(Seq<char>, Seq<char>)> {
    let qualified_name = d.qualified_name@;
    let id = "type."@ + qualified_name;
    if has_companion(m, d.construct@) {
        let conjugated_name = "~"@ + d.declared_name@;
        let conjugated_id = id + "."@ + conjugated_name;
        match last_index(qualified_name, "."@) {
            Some(i) => seq![
                (qualified_name, id),
                (conjugated_name, conjugated_id),
                (qualified_name.take(i) + "."@ + conjugated_name, conjugated_id),
            ],
            None => seq![(qualified_name, id), (conjugated_name, conjugated_id)],
        }
    } else {
        seq![(qualified_name, id)]
    }
}

/// The names the first `n` definitions add, in order.
pub open spec fn definitions_entries(defs: Seq<CollectedDefinition>, m: MappingView, n: int) -> Seq<(Seq<char>, Seq<char>)>
    decreases n,
{
    if n <= 0 {
        Seq::empty()
    } else {
        definitions_entries(defs, m, n - 1) + definition_entries(defs[n - 1], m)
    }
}

/// The value of the last entry for `k`.
pub open spec fn last_entry(es: Seq<(Seq<char>, Seq<char>)>, k: Seq<char>) -> Option<Seq<char>>
    decreases es.len(),
{
    if es.len() == 0 {
        None
    } else if es.last().0 == k {
        Some(es.last().1)
    } else {
        last_entry(es.drop_last(), k)
    }
}

/// The first of the first `n` definitions declared under simple name `k`.
pub open spec fn first_definition_declared(defs: Seq<CollectedDefinition>, k: Seq<char>, n: int) -> Option<int>
    decreases n,
{
    if n <= 0 {
        None
    } else {
        match first_definition_declared(defs, k, n - 1) {
            Some(i) => Some(i),
            None => if defs[n - 1].declared_name@ == k {
                Some(n - 1)
            } else {
                None
            },
        }
    }
}

/// Two of the first `n` definitions are declared under simple name `k`.
pub open spec fn definition_declared_twice(defs: Seq<CollectedDefinition>, k: Seq<char>, n: int) -> bool
    decreases n,
{
    n > 0 && ((defs[n - 1].declared_name@ == k && first_definition_declared(defs, k, n - 1) is Some)
        || definition_declared_twice(defs, k, n - 1))
}

/// The id that name `k` has among the module's definitions: the last entry
/// a definition adds for it; else, when exactly one definition is declared
/// under the simple name `k`, that definition's id.
pub open spec fn local_definition_target(defs: Seq<CollectedDefinition>, m: MappingView, k: Seq<char>) -> Option<Seq<char>> {
    match last_entry(definitions_entries(defs, m, defs.len() as int), k) {
        Some(v) => Some(v),
        None => if definition_declared_twice(defs, k, defs.len() as int) {
            None
        } else {
            match first_definition_declared(defs, k, defs.len() as int) {
                Some(i) => Some("type."@ + defs[i].qualified_name@),
                None => None,
            }
        },
    }
}

proof fn lemma_first_definition_bounds(defs: Seq<CollectedDefinition>, k: Seq<char>, n: int)
    ensures
        first_definition_declared(defs, k, n) matches Some(i) ==> 0 <= i < n && defs[i].declared_name@ == k,
    decreases n,
{
    if n > 0 {
        lemma_first_definition_bounds(defs, k, n - 1);
    }
}

/// Looking up after an entry is appended.
proof fn lemma_last_entry_push(es: Seq<(Seq<char>, Seq<char>)>, e: (Seq<char>, Seq<char>))
    ensures
        forall|k: Seq<char>| #[trigger] last_entry(es.push(e), k) == if e.0 == k {
            Some(e.1)
        } else {
            last_entry(es, k)
        },
{
    assert(es.push(e).drop_last() =~= es);
}

/// Inserts an entry into the map and into its ghost record.
fn insert_entry(
    resolved: &mut StrMap<String>,
    Ghost(es): Ghost<Seq<(Seq<char>, Seq<char>)>>,
    key: String,
    value: String,
) -> (r: Ghost<Seq<(Seq<char>, Seq<char>)>>)
    requires
        forall|k: Seq<char>| #[trigger] str_lookup(old(resolved)@, k) == last_entry(es, k),
    ensures
        r@ == es.push((key@, value@)),
        forall|k: Seq<char>| #[trigger] str_lookup(final(resolved)@, k) == last_entry(r@, k),
{
    let ghost e = (key@, value@);
    let ghost r0 = resolved@;
    resolved.insert(key, value);
    proof {
        lemma_last_entry_push(es, e);
        assert forall|k: Seq<char>| #[trigger] str_lookup(resolved@, k) == last_entry(es.push(e), k) by {
            assert(str_lookup(r0, k) == last_entry(es, k));
        }
    }
    Ghost(es.push(e))
}

/// The ids that names in the module resolve to as local definitions: each
/// definition by its qualified name (and a generated companion's
/// `~name`), and by its simple name where no other definition shares that
/// name and no such entry takes it.
pub fn build_local_definition_map(definitions: &[CollectedDefinition], mappings: &MappingBundle) -> (r: Result<
    StrMap<String>,
    Diagnostic,
>)
    ensures
        r matches Ok(map) && forall|k: Seq<char>| #[trigger] str_lookup(map@, k) == local_definition_target(
            definitions@,
            mappings@,
            k,
        ),
{
    proof {
        reveal_strlit("type.");
        reveal_strlit("~");
        reveal_strlit(".");
    }
    let ghost d = definitions@;
    let ghost m = mappings@;
    let mut resolved: StrMap<String> = StrMap::new();
    let mut simple: StrMap<String> = StrMap::new();
    let mut duplicates: StrSet = StrMap::new();
    let ghost mut es: Seq<(Seq<char>, Seq<char>)> = Seq::empty();
    let mut i: usize = 0;
    while i < definitions.len()
        invariant
            d == definitions@,
            m == mappings@,
            i <= d.len(),
            es == definitions_entries(d, m, i as int),
            forall|k: Seq<char>| #[trigger] str_lookup(resolved@, k) == last_entry(es, k),
            forall|k: Seq<char>| #[trigger]
                str_lookup(simple@, k) == match first_definition_declared(d, k, i as int) {
                    Some(j) => Some("type."@ + d[j].qualified_name@),
                    None => None,
                },
            forall|k: Seq<char>| #[trigger] has_key(duplicates@, k) == definition_declared_twice(d, k, i as int),
        decreases d.len() - i,
    {
        proof {
            reveal_strlit("type.");
            reveal_strlit("~");
            reveal_strlit(".");
        }
        let definition = &definitions[i];
        let ghost n = i as int;
        let ghost start = es;
        let ghost d0 = duplicates@;
        let ghost s0 = simple@;
        let id = concat2("type.", definition.qualified_name.as_str());
        let g = insert_entry(&mut resolved, Ghost(es), owned(definition.qualified_name.as_str()), owned(id.as_str()));
        proof {
            es = g@;
        }
        if mappings.generated_companion_construct_for_definition(definition.construct.as_str()).is_some() {
            let conjugated_name = concat2("~", definition.declared_name.as_str());
            let conjugated_id = concat3(id.as_str(), ".", conjugated_name.as_str());
            let g = insert_entry(&mut resolved, Ghost(es), owned(conjugated_name.as_str()), owned(conjugated_id.as_str()));
            proof {
                es = g@;
            }
            match rsplit_once_str(definition.qualified_name.as_str(), ".") {
                Some((owner, _)) => {
                    let key = concat3(owner.as_str(), ".", conjugated_name.as_str());
                    let g = insert_entry(&mut resolved, Ghost(es), key, owned(conjugated_id.as_str()));
                    proof {
                        es = g@;
                    }
                },
                None => {},
            }
        }
        proof {
            assert(es =~= start + definition_entries(d[n], m));
        }
        let present = simple.contains_key(definition.declared_name.as_str());
        if present {
            duplicates.insert(owned(definition.declared_name.as_str()), ());
        } else {
            simple.insert(owned(definition.declared_name.as_str()), owned(id.as_str()));
        }
        i = i + 1;
        proof {
            assert forall|k: Seq<char>| #[trigger]
                str_lookup(simple@, k) == match first_definition_declared(d, k, i as int) {
                    Some(j) => Some("type."@ + d[j].qualified_name@),
                    None => None,
                } by {
                assert(str_lookup(s0, k) == match first_definition_declared(d, k, n) {
                    Some(j) => Some("type."@ + d[j].qualified_name@),
                    None => None,
                });
            }
            assert forall|k: Seq<char>| #[trigger] has_key(duplicates@, k) == definition_declared_twice(d, k, i as int) by {
                assert(str_lookup(s0, k) == match first_definition_declared(d, k, n) {
                    Some(j) => Some("type."@ + d[j].qualified_name@),
                    None => None,
                });
                assert(has_key(d0, k) == definition_declared_twice(d, k, n));
                if present {
                    assert(lookup(duplicates@, k) == if k == d[n].declared_name@ {
                        Some(())
                    } else {
                        lookup(d0, k)
                    });
                }
            }
        }
    }
    let ghost r1 = resolved@;
    let ghost s2 = simple@;
    let ns = simple.len();
    let mut t: usize = 0;
    while t < ns
        invariant
            ns == s2.len(),
            s2 == simple@,
            keys_sorted(s2),
            t <= ns,
            forall|k: Seq<char>| #[trigger]
                str_lookup(resolved@, k) == if has_key(r1, k) {
                    str_lookup(r1, k)
                } else if !has_key(duplicates@, k) && exists|j: int| 0 <= j < t && (#[trigger] s2[j]).0 == k {
                    str_lookup(s2, k)
                } else {
                    None
                },
        decreases ns - t,
    {
        let key = simple.key_at(t);
        let ghost rp = resolved@;
        let ghost kt = s2[t as int].0;
        let skip = duplicates.contains_key(key.as_str()) || resolved.contains_key(key.as_str());
        if !skip {
            let v = simple.value_at(t).clone();
            resolved.insert(owned(key.as_str()), v);
            proof {
                assert forall|q: Seq<char>| #[trigger] str_lookup(resolved@, q) == if q == kt {
                    Some(s2[t as int].1@)
                } else {
                    str_lookup(rp, q)
                } by {
                    assert(lookup(resolved@, q) == if q == kt {
                        Some(v)
                    } else {
                        lookup(rp, q)
                    });
                }
            }
        }
        proof {
            lemma_lookup_at(s2, t as int);
        }
        t = t + 1;
        proof {
            assert forall|k: Seq<char>| #[trigger]
                str_lookup(resolved@, k) == if has_key(r1, k) {
                    str_lookup(r1, k)
                } else if !has_key(duplicates@, k) && exists|j: int| 0 <= j < t && (#[trigger] s2[j]).0 == k {
                    str_lookup(s2, k)
                } else {
                    None
                } by {
                assert(str_lookup(rp, k) == if has_key(r1, k) {
                    str_lookup(r1, k)
                } else if !has_key(duplicates@, k) && exists|j: int| 0 <= j < t - 1 && (#[trigger] s2[j]).0 == k {
                    str_lookup(s2, k)
                } else {
                    None
                });
                if k == kt {
                    assert(s2[t - 1].0 == k);
                }
                if exists|j: int| 0 <= j < t && (#[trigger] s2[j]).0 == k {
                    let j = choose|j: int| 0 <= j < t && (#[trigger] s2[j]).0 == k;
                    if j < t - 1 {
                        assert(exists|j2: int| 0 <= j2 < t - 1 && (#[trigger] s2[j2]).0 == k);
                    }
                } else {
                    assert(k != kt);
                    assert(!(exists|j2: int| 0 <= j2 < t - 1 && (#[trigger] s2[j2]).0 == k)) by {
                        if exists|j2: int| 0 <= j2 < t - 1 && (#[trigger] s2[j2]).0 == k {
                            let j2 = choose|j2: int| 0 <= j2 < t - 1 && (#[trigger] s2[j2]).0 == k;
                            assert(0 <= j2 < t && s2[j2].0 == k);
                        }
                    }
                }
            }
        }
    }
    proof {
        assert forall|k: Seq<char>| #[trigger] str_lookup(resolved@, k) == local_definition_target(d, m, k) by {
            lemma_first_definition_bounds(d, k, d.len() as int);
            if has_key(s2, k) {
                let j = choose|j: int| 0 <= j < s2.len() && (#[trigger] s2[j]).0 == k;
                assert(0 <= j < ns && s2[j].0 == k);
            }
            if has_key(r1, k) {
                assert(lookup(r1, k) is Some);
            } else {
                assert(str_lookup(r1, k) is None);
            }
        }
    }
    Ok(resolved)
}


// ------------------------------------------------------------ local usages and features

/// The usages of a list with their member trees, each usage before its
/// members, in order.
pub open spec fn usage_tree(s: Seq<CollectedUsageView>) -> Seq<CollectedUsageView>
    decreases s,
{
    if s.len() == 0 {
        Seq::empty()
    } else {
        usage_tree(s.drop_last()) + seq![s.last()] + usage_tree(s.last().members)
    }
}

/// The usage trees of the members of the first `n` definitions, in order.
pub open spec fn definition_usage_trees(defs: Seq<CollectedDefinition>, n: int) -> Seq<CollectedUsageView>
    decreases n,
{
    if n <= 0 {
        Seq::empty()
    } else {
        definition_usage_trees(defs, n - 1) + usage_tree(defs[n - 1]@.members)
    }
}

/// Every usage of the module: the members of its definitions, then its
/// package-level usages, each with its member tree.
pub open spec fn module_usages(defs: Seq<CollectedDefinition>, usages: Seq<CollectedUsage>) -> Seq<CollectedUsageView> {
    definition_usage_trees(defs, defs.len() as int) + usage_tree(cusages_view(usages))
}

/// The last of `s` with qualified name `k`.
pub open spec fn last_usage_named(s: Seq<CollectedUsageView>, k: Seq<char>) -> Option<CollectedUsageView>
    decreases s.len(),
{
    if s.len() == 0 {
        None
    } else if s.last().qualified_name == k {
        Some(s.last())
    } else {
        last_usage_named(s.drop_last(), k)
    }
}

/// The view of the usage that `s` maps `k` to.
pub open spec fn usage_lookup(s: Seq<(Seq<char>, CollectedUsage)>, k: Seq<char>) -> Option<CollectedUsageView> {
    match lookup(s, k) {
        Some(u) => Some(u@),
        None => None,
    }
}

proof fn lemma_last_usage_named_concat(a: Seq<CollectedUsageView>, b: Seq<CollectedUsageView>, k: Seq<char>)
    ensures
        last_usage_named(a + b, k) == match last_usage_named(b, k) {
            Some(u) => Some(u),
            None => last_usage_named(a, k),
        },
    decreases b.len(),
{
    if b.len() == 0 {
        assert(a + b =~= a);
    } else {
        assert((a + b).drop_last() =~= a + b.drop_last());
        assert((a + b).last() == b.last());
        lemma_last_usage_named_concat(a, b.drop_last(), k);
    }
}

/// Maps each usage among `usages` and their member trees by qualified
/// name; a later usage replaces an earlier one.
fn collect_usage_map(usages: &Vec<CollectedUsage>, map: &mut StrMap<CollectedUsage>)
    ensures
        forall|k: Seq<char>| #[trigger] usage_lookup(final(map)@, k) == match last_usage_named(
            usage_tree(cusages_view(usages@)),
            k,
        ) {
            Some(u) => Some(u),
            None => usage_lookup(old(map)@, k),
        },
    decreases usages,
{
    let ghost start = map@;
    let ghost all = cusages_view(usages@);
    proof {
        lemma_cusages_view_index(usages@);
        assert(all.take(0) =~= Seq::<CollectedUsageView>::empty());
    }
    let mut i: usize = 0;
    while i < usages.len()
        invariant
            i <= usages@.len(),
            all == cusages_view(usages@),
            all.len() == usages@.len(),
            forall|j: int| 0 <= j < usages@.len() ==> #[trigger] all[j] == cusage_view(usages@[j]),
            forall|k: Seq<char>| #[trigger] usage_lookup(map@, k) == match last_usage_named(
                usage_tree(all.take(i as int)),
                k,
            ) {
                Some(u) => Some(u),
                None => usage_lookup(start, k),
            },
        decreases usages@.len() - i,
    {
        proof {
            vstd::std_specs::vec::axiom_vec_index_decreases(*usages, i as int);
        }
        let usage = &usages[i];
        let ghost before = map@;
        let ghost uv = all[i as int];
        let copy = usage.duplicate();
        map.insert(owned(usage.qualified_name.as_str()), copy);
        let ghost inserted = map@;
        collect_usage_map(&usage.members, map);
        proof {
            let prefix = usage_tree(all.take(i as int));
            let members = usage_tree(uv.members);
            assert(all.take(i + 1).drop_last() =~= all.take(i as int));
            assert(all.take(i + 1).last() == uv);
            assert(usage_tree(all.take(i + 1)) == prefix + seq![uv] + members);
            assert forall|k: Seq<char>| #[trigger] usage_lookup(map@, k) == match last_usage_named(
                usage_tree(all.take(i + 1)),
                k,
            ) {
                Some(u) => Some(u),
                None => usage_lookup(start, k),
            } by {
                lemma_last_usage_named_concat(prefix + seq![uv], members, k);
                lemma_last_usage_named_concat(prefix, seq![uv], k);
                assert(seq![uv].drop_last() =~= Seq::<CollectedUsageView>::empty());
                assert(last_usage_named(Seq::<CollectedUsageView>::empty(), k) is None);
                assert(last_usage_named(seq![uv], k) == if uv.qualified_name == k {
                    Some(uv)
                } else {
                    None
                });
                assert(usage_lookup(inserted, k) == if k == uv.qualified_name {
                    Some(uv)
                } else {
                    usage_lookup(before, k)
                });
                assert(uv.members == cusages_view(usage.members@));
                assert(usage_lookup(map@, k) == match last_usage_named(members, k) {
                    Some(u) => Some(u),
                    None => usage_lookup(inserted, k),
                });
                assert(usage_lookup(before, k) == match last_usage_named(prefix, k) {
                    Some(u) => Some(u),
                    None => usage_lookup(start, k),
                });
            }
        }
        i = i + 1;
    }
    proof {
        assert(all.take(usages@.len() as int) =~= all);
    }
}

/// The module's usages by qualified name: the members of its definitions,
/// then its package-level usages, each with its member tree; a later usage
/// replaces an earlier one.
pub fn build_local_usage_map(definitions: &[CollectedDefinition], usages: &Vec<CollectedUsage>) -> (r: StrMap<
    CollectedUsage,
>)
    ensures
        forall|k: Seq<char>| #[trigger] usage_lookup(r@, k) == last_usage_named(module_usages(definitions@, usages@), k),
{
    let mut map: StrMap<CollectedUsage> = StrMap::new();
    let mut i: usize = 0;
    while i < definitions.len()
        invariant
            i <= definitions@.len(),
            forall|k: Seq<char>| #[trigger] usage_lookup(map@, k) == last_usage_named(
                definition_usage_trees(definitions@, i as int),
                k,
            ),
        decreases definitions@.len() - i,
    {
        let ghost before = map@;
        collect_usage_map(&definitions[i].members, &mut map);
        proof {
            assert forall|k: Seq<char>| #[trigger] usage_lookup(map@, k) == last_usage_named(
                definition_usage_trees(definitions@, i + 1),
                k,
            ) by {
                lemma_last_usage_named_concat(
                    definition_usage_trees(definitions@, i as int),
                    usage_tree(definitions@[i as int]@.members),
                    k,
                );
            }
        }
        i = i + 1;
    }
    let ghost before = map@;
    collect_usage_map(usages, &mut map);
    proof {
        assert forall|k: Seq<char>| #[trigger] usage_lookup(map@, k) == last_usage_named(
            module_usages(definitions@, usages@),
            k,
        ) by {
            lemma_last_usage_named_concat(
                definition_usage_trees(definitions@, definitions@.len() as int),
                usage_tree(cusages_view(usages@)),
                k,
            );
        }
    }
    map
}


/// The qualified name of the last of `s` declared as `name` in the element
/// `owner`.
pub open spec fn last_feature(s: Seq<CollectedUsageView>, owner: Seq<char>, name: Seq<char>) -> Option<Seq<char>>
    decreases s.len(),
{
    if s.len() == 0 {
        None
    } else if s.last().owner_qualified_name == owner && s.last().declared_name == name {
        Some(s.last().qualified_name)
    } else {
        last_feature(s.drop_last(), owner, name)
    }
}

/// Whether some usage of `s` is owned by the element `owner`.
pub open spec fn owns_usage(s: Seq<CollectedUsageView>, owner: Seq<char>) -> bool {
    exists|i: int| 0 <= i < s.len() && (#[trigger] s[i]).owner_qualified_name == owner
}

/// The features that a feature index gives the element `owner`.
pub open spec fn scope_of(index: Seq<(Seq<char>, StrMap<String>)>, owner: Seq<char>) -> Seq<(Seq<char>, String)> {
    match lookup(index, owner) {
        Some(m) => m@,
        None => Seq::empty(),
    }
}

proof fn lemma_last_feature_concat(a: Seq<CollectedUsageView>, b: Seq<CollectedUsageView>, owner: Seq<char>, name: Seq<char>)
    ensures
        last_feature(a + b, owner, name) == match last_feature(b, owner, name) {
            Some(q) => Some(q),
            None => last_feature(a, owner, name),
        },
    decreases b.len(),
{
    if b.len() == 0 {
        assert(a + b =~= a);
    } else {
        assert((a + b).drop_last() =~= a + b.drop_last());
        assert((a + b).last() == b.last());
        lemma_last_feature_concat(a, b.drop_last(), owner, name);
    }
}

proof fn lemma_owns_usage_concat(a: Seq<CollectedUsageView>, b: Seq<CollectedUsageView>, owner: Seq<char>)
    ensures
        owns_usage(a + b, owner) == (owns_usage(a, owner) || owns_usage(b, owner)),
{
    if owns_usage(a + b, owner) {
        let i = choose|i: int| 0 <= i < (a + b).len() && (#[trigger] (a + b)[i]).owner_qualified_name == owner;
        if i < a.len() {
            assert(a[i] == (a + b)[i]);
        } else {
            assert(b[i - a.len()] == (a + b)[i]);
        }
    }
    if owns_usage(a, owner) {
        let i = choose|i: int| 0 <= i < a.len() && (#[trigger] a[i]).owner_qualified_name == owner;
        assert((a + b)[i] == a[i]);
    }
    if owns_usage(b, owner) {
        let i = choose|i: int| 0 <= i < b.len() && (#[trigger] b[i]).owner_qualified_name == owner;
        assert((a + b)[a.len() + i] == b[i]);
    }
}

/// Records, for each usage among `usages` and their member trees, its
/// qualified name under its owner and declared name; a later usage
/// replaces an earlier one.
fn collect_feature_scope(usages: &Vec<CollectedUsage>, index: &mut StrMap<StrMap<String>>)
    ensures
        forall|owner: Seq<char>| #[trigger] has_key(final(index)@, owner) == (has_key(old(index)@, owner)
            || owns_usage(usage_tree(cusages_view(usages@)), owner)),
        forall|owner: Seq<char>, name: Seq<char>| #[trigger]
            str_lookup(scope_of(final(index)@, owner), name) == match last_feature(
                usage_tree(cusages_view(usages@)),
                owner,
                name,
            ) {
                Some(q) => Some(q),
                None => str_lookup(scope_of(old(index)@, owner), name),
            },
    decreases usages,
{
    let ghost start = index@;
    let ghost all = cusages_view(usages@);
    proof {
        lemma_cusages_view_index(usages@);
        assert(all.take(0) =~= Seq::<CollectedUsageView>::empty());
    }
    let mut i: usize = 0;
    while i < usages.len()
        invariant
            i <= usages@.len(),
            all == cusages_view(usages@),
            all.len() == usages@.len(),
            forall|j: int| 0 <= j < usages@.len() ==> #[trigger] all[j] == cusage_view(usages@[j]),
            forall|owner: Seq<char>| #[trigger] has_key(index@, owner) == (has_key(start, owner) || owns_usage(
                usage_tree(all.take(i as int)),
                owner,
            )),
            forall|owner: Seq<char>, name: Seq<char>| #[trigger]
                str_lookup(scope_of(index@, owner), name) == match last_feature(
                    usage_tree(all.take(i as int)),
                    owner,
                    name,
                ) {
                    Some(q) => Some(q),
                    None => str_lookup(scope_of(start, owner), name),
                },
        decreases usages@.len() - i,
    {
        proof {
            vstd::std_specs::vec::axiom_vec_index_decreases(*usages, i as int);
        }
        let usage = &usages[i];
        let ghost before = index@;
        let ghost uv = all[i as int];
        let mut scope = match index.remove(usage.owner_qualified_name.as_str()) {
            Some(m) => m,
            None => StrMap::new(),
        };
        let ghost old_scope = scope@;
        scope.insert(owned(usage.declared_name.as_str()), owned(usage.qualified_name.as_str()));
        let ghost new_scope = scope@;
        proof {
            assert forall|name: Seq<char>| #[trigger] str_lookup(new_scope, name) == if name == uv.declared_name {
                Some(uv.qualified_name)
            } else {
                str_lookup(old_scope, name)
            } by {
                assert(lookup(new_scope, name) == if name == usage.declared_name@ {
                    lookup(new_scope, usage.declared_name@)
                } else {
                    lookup(old_scope, name)
                });
            }
        }
        index.insert(owned(usage.owner_qualified_name.as_str()), scope);
        let ghost inserted = index@;
        proof {
            assert(old_scope == scope_of(before, uv.owner_qualified_name));
            assert forall|owner: Seq<char>| #[trigger] has_key(inserted, owner) == (has_key(before, owner) || owner
                == uv.owner_qualified_name) by {
                assert(lookup(inserted, owner) == if owner == uv.owner_qualified_name {
                    Some(scope)
                } else {
                    lookup(before, owner)
                });
                assert(has_key(inserted, owner) == lookup(inserted, owner) is Some);
                assert(has_key(before, owner) == lookup(before, owner) is Some);
            }
            assert forall|owner: Seq<char>, name: Seq<char>| #[trigger] str_lookup(scope_of(inserted, owner), name)
                == if owner == uv.owner_qualified_name && name == uv.declared_name {
                Some(uv.qualified_name)
            } else {
                str_lookup(scope_of(before, owner), name)
            } by {
                assert(lookup(inserted, owner) == if owner == uv.owner_qualified_name {
                    Some(scope)
                } else {
                    lookup(before, owner)
                });
                if owner == uv.owner_qualified_name {
                    assert(scope_of(inserted, owner) == new_scope);
                    assert(str_lookup(new_scope, name) == if name == uv.declared_name {
                        Some(uv.qualified_name)
                    } else {
                        str_lookup(old_scope, name)
                    });
                }
            }
        }
        collect_feature_scope(&usage.members, index);
        proof {
            let prefix = usage_tree(all.take(i as int));
            let members = usage_tree(uv.members);
            assert(all.take(i + 1).drop_last() =~= all.take(i as int));
            assert(all.take(i + 1).last() == uv);
            assert(usage_tree(all.take(i + 1)) == prefix + seq![uv] + members);
            assert(uv.members == cusages_view(usage.members@));
            assert(seq![uv].drop_last() =~= Seq::<CollectedUsageView>::empty());
            assert forall|owner: Seq<char>| #[trigger] has_key(index@, owner) == (has_key(start, owner) || owns_usage(
                usage_tree(all.take(i + 1)),
                owner,
            )) by {
                lemma_owns_usage_concat(prefix + seq![uv], members, owner);
                lemma_owns_usage_concat(prefix, seq![uv], owner);
                assert(owns_usage(seq![uv], owner) == (uv.owner_qualified_name == owner)) by {
                    if uv.owner_qualified_name == owner {
                        assert(seq![uv][0] == uv);
                    }
                }
                assert(has_key(before, owner) == (has_key(start, owner) || owns_usage(prefix, owner)));
            }
            assert forall|owner: Seq<char>, name: Seq<char>| #[trigger]
                str_lookup(scope_of(index@, owner), name) == match last_feature(
                    usage_tree(all.take(i + 1)),
                    owner,
                    name,
                ) {
                    Some(q) => Some(q),
                    None => str_lookup(scope_of(start, owner), name),
                } by {
                lemma_last_feature_concat(prefix + seq![uv], members, owner, name);
                lemma_last_feature_concat(prefix, seq![uv], owner, name);
                assert(last_feature(Seq::<CollectedUsageView>::empty(), owner, name) is None);
                assert(str_lookup(scope_of(before, owner), name) == match last_feature(prefix, owner, name) {
                    Some(q) => Some(q),
                    None => str_lookup(scope_of(start, owner), name),
                });
            }
        }
        i = i + 1;
    }
    proof {
        assert(all.take(usages@.len() as int) =~= all);
    }
}


/// The module's features by owner: for each element that owns usages, the
/// qualified name of each usage by its declared name, over the members of
/// its definitions and then its package-level usages; a later usage
/// replaces an earlier one.
pub fn build_local_feature_index(definitions: &[CollectedDefinition], usages: &Vec<CollectedUsage>) -> (r: StrMap<
    StrMap<String>,
>)
    ensures
        forall|owner: Seq<char>| #[trigger] has_key(r@, owner) == owns_usage(module_usages(definitions@, usages@), owner),
        forall|owner: Seq<char>, name: Seq<char>| #[trigger]
            str_lookup(scope_of(r@, owner), name) == last_feature(module_usages(definitions@, usages@), owner, name),
{
    let mut index: StrMap<StrMap<String>> = StrMap::new();
    let mut i: usize = 0;
    proof {
        assert(definition_usage_trees(definitions@, 0) =~= Seq::<CollectedUsageView>::empty());
    }
    while i < definitions.len()
        invariant
            i <= definitions@.len(),
            forall|owner: Seq<char>| #[trigger] has_key(index@, owner) == owns_usage(
                definition_usage_trees(definitions@, i as int),
                owner,
            ),
            forall|owner: Seq<char>, name: Seq<char>| #[trigger]
                str_lookup(scope_of(index@, owner), name) == last_feature(
                    definition_usage_trees(definitions@, i as int),
                    owner,
                    name,
                ),
        decreases definitions@.len() - i,
    {
        let ghost before = index@;
        collect_feature_scope(&definitions[i].members, &mut index);
        proof {
            let a = definition_usage_trees(definitions@, i as int);
            let b = usage_tree(definitions@[i as int]@.members);
            assert forall|owner: Seq<char>| #[trigger] has_key(index@, owner) == owns_usage(
                definition_usage_trees(definitions@, i + 1),
                owner,
            ) by {
                lemma_owns_usage_concat(a, b, owner);
                assert(has_key(before, owner) == owns_usage(a, owner));
            }
            assert forall|owner: Seq<char>, name: Seq<char>| #[trigger]
                str_lookup(scope_of(index@, owner), name) == last_feature(
                    definition_usage_trees(definitions@, i + 1),
                    owner,
                    name,
                ) by {
                lemma_last_feature_concat(a, b, owner, name);
                assert(str_lookup(scope_of(before, owner), name) == last_feature(a, owner, name));
            }
        }
        i = i + 1;
    }
    let ghost before = index@;
    collect_feature_scope(usages, &mut index);
    proof {
        let a = definition_usage_trees(definitions@, definitions@.len() as int);
        let b = usage_tree(cusages_view(usages@));
        assert forall|owner: Seq<char>| #[trigger] has_key(index@, owner) == owns_usage(
            module_usages(definitions@, usages@),
            owner,
        ) by {
            lemma_owns_usage_concat(a, b, owner);
            assert(has_key(before, owner) == owns_usage(a, owner));
        }
        assert forall|owner: Seq<char>, name: Seq<char>| #[trigger]
            str_lookup(scope_of(index@, owner), name) == last_feature(module_usages(definitions@, usages@), owner, name) by {
            lemma_last_feature_concat(a, b, owner, name);
            assert(str_lookup(scope_of(before, owner), name) == last_feature(a, owner, name));
        }
    }
    index
}

} // verus!
