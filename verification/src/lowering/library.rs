//! The library's alias map: the aliases the mapping profile declares, the
//! short names library elements declare (qualified by their namespace, and
//! bare where only one element claims them), and older names kept for
//! compatibility.
use vstd::prelude::*;

use crate::lowering::bundle::{MappingBundle, compat_alias_pairs};
use crate::strmap::{StrMap, StrSet, has_key, lookup, str_lookup};
use crate::text::{concat3, last_index, lemma_last_index, owned, rsplit_once_str, str_eq};

verus! {

/// An element of the library as the indexes read it: its id, its kind, the
/// type ids it names, the ids it specializes, and the short name its
/// metadata declares.
pub struct LibraryElement {
    pub id: String,
    pub kind: String,
    pub types: Vec<String>,
    pub specializes: Vec<String>,
    pub declared_short_name: Option<String>,
}

/// The short name an element declares, when its id has a `::` namespace.
pub open spec fn element_short_name(e: LibraryElement) -> Option<Seq<char>> {
    match (last_index(e.id@, "::"@), e.declared_short_name) {
        (Some(_), Some(s)) => Some(s@),
        _ => None,
    }
}

/// The alias an element's short name gives it within its namespace.
pub open spec fn element_alias_key(e: LibraryElement) -> Option<Seq<char>> {
    match (last_index(e.id@, "::"@), e.declared_short_name) {
        (Some(i), Some(s)) => Some(e.id@.take(i) + "::"@ + s@),
        _ => None,
    }
}

/// The id of the first of the first `n` elements whose short name, within
/// its namespace, is `k`.
pub open spec fn first_keyed(es: Seq<LibraryElement>, k: Seq<char>, n: int) -> Option<Seq<char>>
    decreases n,
{
    if n <= 0 {
        None
    } else {
        match first_keyed(es, k, n - 1) {
            Some(id) => Some(id),
            None => if element_alias_key(es[n - 1]) == Some(k) {
                Some(es[n - 1].id@)
            } else {
                None
            },
        }
    }
}

/// The id of the first of the first `n` elements that declares short name
/// `s`.
pub open spec fn first_short(es: Seq<LibraryElement>, s: Seq<char>, n: int) -> Option<Seq<char>>
    decreases n,
{
    if n <= 0 {
        None
    } else {
        match first_short(es, s, n - 1) {
            Some(id) => Some(id),
            None => if element_short_name(es[n - 1]) == Some(s) {
                Some(es[n - 1].id@)
            } else {
                None
            },
        }
    }
}

/// Among the first `n` elements, two with different ids declare short
/// name `s`.
pub open spec fn short_conflict(es: Seq<LibraryElement>, s: Seq<char>, n: int) -> bool
    decreases n,
{
    n > 0 && ((element_short_name(es[n - 1]) == Some(s) && (first_short(es, s, n - 1) matches Some(t) && t
        != es[n - 1].id@)) || short_conflict(es, s, n - 1))
}

/// The element a bare short name stands for: the one id that declares it.
pub open spec fn bare_target(es: Seq<LibraryElement>, s: Seq<char>) -> Option<Seq<char>> {
    if short_conflict(es, s, es.len() as int) {
        None
    } else {
        first_short(es, s, es.len() as int)
    }
}

/// Some element has id `t`.
pub open spec fn has_element(es: Seq<LibraryElement>, t: Seq<char>) -> bool {
    exists|i: int| 0 <= i < es.len() && (#[trigger] es[i]).id@ == t
}

/// The target of the first of the first `n` compatibility aliases named
/// `k` whose target is a library element.
pub open spec fn compat_target(es: Seq<LibraryElement>, k: Seq<char>, n: int) -> Option<Seq<char>>
    decreases n,
{
    if n <= 0 {
        None
    } else {
        match compat_target(es, k, n - 1) {
            Some(t) => Some(t),
            None => if compat_alias_pairs()[n - 1].0 == k && has_element(es, compat_alias_pairs()[n - 1].1) {
                Some(compat_alias_pairs()[n - 1].1)
            } else {
                None
            },
        }
    }
}

/// What alias `k` stands for in the library: the profile's alias, else the
/// first element declaring it as a short name in its namespace, else the
/// one element declaring it as a bare short name, else a compatibility
/// alias whose target is in the library.
pub open spec fn library_alias(sa: Seq<(Seq<char>, String)>, es: Seq<LibraryElement>, k: Seq<char>) -> Option<
    Seq<char>,
> {
    match str_lookup(sa, k) {
        Some(v) => Some(v),
        None => match first_keyed(es, k, es.len() as int) {
            Some(id) => Some(id),
            None => match bare_target(es, k) {
                Some(t) => Some(t),
                None => compat_target(es, k, compat_alias_pairs().len() as int),
            },
        },
    }
}

/// Adds alias `alias` for `target` unless the alias is taken, when some
/// library element has id `target`.
pub fn add_compat_stdlib_alias(aliases: &mut StrMap<String>, stdlib: &[LibraryElement], alias: &str, target: &str)
    ensures
        forall|k: Seq<char>| #[trigger]
            str_lookup(final(aliases)@, k) == if k == alias@ && str_lookup(old(aliases)@, k) is None && has_element(
                stdlib@,
                target@,
            ) {
                Some(target@)
            } else {
                str_lookup(old(aliases)@, k)
            },
{
    let ghost a0 = aliases@;
    let mut found = false;
    let mut i: usize = 0;
    while i < stdlib.len()
        invariant
            i <= stdlib@.len(),
            found == exists|j: int| 0 <= j < i && (#[trigger] stdlib@[j]).id@ == target@,
        decreases stdlib@.len() - i,
    {
        if str_eq(stdlib[i].id.as_str(), target) {
            found = true;
        }
        i = i + 1;
    }
    if found && !aliases.contains_key(alias) {
        aliases.insert(owned(alias), owned(target));
        proof {
            assert forall|k: Seq<char>| #[trigger] str_lookup(aliases@, k) == if k == alias@ {
                Some(target@)
            } else {
                str_lookup(a0, k)
            } by {}
        }
    }
}

/// The library's alias map: the profile's aliases, the short names its
/// elements declare (within their namespace, and bare where no two
/// elements claim the same one), and the compatibility aliases whose
/// targets it has; an alias already taken is never replaced.
pub fn build_stdlib_alias_map(stdlib: &[LibraryElement], mappings: &MappingBundle) -> (r: StrMap<String>)
    ensures
        forall|k: Seq<char>| #[trigger]
            str_lookup(r@, k) == library_alias(mappings@.stdlib_aliases, stdlib@, k),
{
    proof {
        reveal_strlit("::");
    }
    let ghost es = stdlib@;
    let ghost sa = mappings@.stdlib_aliases;
    let mut aliases = mappings.stdlib_aliases().copy();
    let mut bare: StrMap<String> = StrMap::new();
    let mut duplicates: StrSet = StrMap::new();
    let mut i: usize = 0;
    while i < stdlib.len()
        invariant
            es == stdlib@,
            sa == mappings@.stdlib_aliases,
            i <= es.len(),
            forall|k: Seq<char>| #[trigger]
                str_lookup(aliases@, k) == match str_lookup(sa, k) {
                    Some(v) => Some(v),
                    None => first_keyed(es, k, i as int),
                },
            forall|s: Seq<char>| #[trigger] str_lookup(bare@, s) == first_short(es, s, i as int),
            forall|s: Seq<char>| #[trigger] has_key(duplicates@, s) == short_conflict(es, s, i as int),
        decreases es.len() - i,
    {
        proof {
            reveal_strlit("::");
        }
        let element = &stdlib[i];
        let ghost a0 = aliases@;
        let ghost b0 = bare@;
        let ghost d0 = duplicates@;
        let ghost n = i as int;
        proof {
            lemma_last_index(element.id@, "::"@);
        }
        match (rsplit_once_str(element.id.as_str(), "::"), &element.declared_short_name) {
            (Some((namespace, _)), Some(short)) => {
                let key = concat3(namespace.as_str(), "::", short.as_str());
                if !aliases.contains_key(key.as_str()) {
                    aliases.insert(key, owned(element.id.as_str()));
                }
                let conflict = match bare.get(short.as_str()) {
                    Some(existing) => !str_eq(existing.as_str(), element.id.as_str()),
                    None => {
                        bare.insert(owned(short.as_str()), owned(element.id.as_str()));
                        false
                    },
                };
                if conflict {
                    duplicates.insert(owned(short.as_str()), ());
                }
                proof {
                    assert(element_alias_key(es[n]) == Some(key@));
                    assert(element_short_name(es[n]) == Some(short@));
                    assert forall|k: Seq<char>| #[trigger]
                        str_lookup(aliases@, k) == match str_lookup(sa, k) {
                            Some(v) => Some(v),
                            None => first_keyed(es, k, n + 1),
                        } by {
                        assert(str_lookup(a0, k) == match str_lookup(sa, k) {
                            Some(v) => Some(v),
                            None => first_keyed(es, k, n),
                        });
                    }
                    assert forall|s: Seq<char>| #[trigger] str_lookup(bare@, s) == first_short(es, s, n + 1) by {
                        assert(str_lookup(b0, s) == first_short(es, s, n));
                    }
                    assert forall|s: Seq<char>| #[trigger] has_key(duplicates@, s) == short_conflict(es, s, n + 1) by {
                        assert(has_key(d0, s) == short_conflict(es, s, n));
                        assert(str_lookup(b0, s) == first_short(es, s, n));
                        if conflict {
                            assert(lookup(duplicates@, s) == if s == short@ {
                                Some(())
                            } else {
                                lookup(d0, s)
                            });
                        }
                    }
                }
            },
            _ => {
                proof {
                    assert(element_alias_key(es[n]) is None);
                    assert(element_short_name(es[n]) is None);
                    assert forall|k: Seq<char>| #[trigger]
                        str_lookup(aliases@, k) == match str_lookup(sa, k) {
                            Some(v) => Some(v),
                            None => first_keyed(es, k, n + 1),
                        } by {}
                    assert forall|s: Seq<char>| #[trigger] str_lookup(bare@, s) == first_short(es, s, n + 1) by {}
                    assert forall|s: Seq<char>| #[trigger] has_key(duplicates@, s) == short_conflict(es, s, n + 1) by {}
                }
            },
        }
        i = i + 1;
    }
    let ghost a1 = aliases@;
    let ghost b1 = bare@;
    let nd = duplicates.len();
    let mut j: usize = 0;
    while j < nd
        invariant
            nd == duplicates@.len(),
            j <= nd,
            forall|s: Seq<char>| #[trigger]
                str_lookup(bare@, s) == if exists|m: int| 0 <= m < j && (#[trigger] duplicates@[m]).0 == s {
                    None
                } else {
                    str_lookup(b1, s)
                },
        decreases nd - j,
    {
        let ghost bp = bare@;
        let ghost kd = duplicates@[j as int].0;
        let _ = bare.remove(duplicates.key_at(j).as_str());
        j = j + 1;
        proof {
            assert forall|s: Seq<char>| #[trigger]
                str_lookup(bare@, s) == if exists|m: int| 0 <= m < j && (#[trigger] duplicates@[m]).0 == s {
                    None
                } else {
                    str_lookup(b1, s)
                } by {
                assert(lookup(bare@, s) == if s == kd {
                    None
                } else {
                    lookup(bp, s)
                });
                assert(str_lookup(bp, s) == if exists|m: int| 0 <= m < j - 1 && (#[trigger] duplicates@[m]).0 == s {
                    None
                } else {
                    str_lookup(b1, s)
                });
                if exists|m: int| 0 <= m < j && (#[trigger] duplicates@[m]).0 == s {
                    let m = choose|m: int| 0 <= m < j && (#[trigger] duplicates@[m]).0 == s;
                    if m < j - 1 {
                        assert(exists|m2: int| 0 <= m2 < j - 1 && (#[trigger] duplicates@[m2]).0 == s);
                    }
                } else {
                    assert(!(exists|m2: int| 0 <= m2 < j - 1 && (#[trigger] duplicates@[m2]).0 == s)) by {
                        if exists|m2: int| 0 <= m2 < j - 1 && (#[trigger] duplicates@[m2]).0 == s {
                            let m2 = choose|m2: int| 0 <= m2 < j - 1 && (#[trigger] duplicates@[m2]).0 == s;
                            assert(0 <= m2 < j && duplicates@[m2].0 == s);
                        }
                    }
                }
            }
        }
    }
    let ghost b2 = bare@;
    proof {
        assert forall|s: Seq<char>| #[trigger] str_lookup(b2, s) == bare_target(es, s) by {
            if has_key(duplicates@, s) {
                let m = choose|m: int| 0 <= m < duplicates@.len() && (#[trigger] duplicates@[m]).0 == s;
                assert(0 <= m < nd && duplicates@[m].0 == s);
            }
        }
    }
    let nb = bare.len();
    let mut t: usize = 0;
    while t < nb
        invariant
            nb == b2.len(),
            b2 == bare@,
            crate::strmap::keys_sorted(b2),
            t <= nb,
            forall|k: Seq<char>| #[trigger]
                str_lookup(aliases@, k) == if str_lookup(a1, k) is Some {
                    str_lookup(a1, k)
                } else if exists|m: int| 0 <= m < t && (#[trigger] b2[m]).0 == k {
                    str_lookup(b2, k)
                } else {
                    None
                },
        decreases nb - t,
    {
        let ghost ap = aliases@;
        let ghost kt = b2[t as int].0;
        proof {
            crate::strmap::lemma_lookup_at(b2, t as int);
        }
        let key = bare.key_at(t);
        if !aliases.contains_key(key.as_str()) {
            aliases.insert(owned(key.as_str()), owned(bare.value_at(t).as_str()));
        }
        t = t + 1;
        proof {
            assert forall|k: Seq<char>| #[trigger]
                str_lookup(aliases@, k) == if str_lookup(a1, k) is Some {
                    str_lookup(a1, k)
                } else if exists|m: int| 0 <= m < t && (#[trigger] b2[m]).0 == k {
                    str_lookup(b2, k)
                } else {
                    None
                } by {
                assert(str_lookup(ap, k) == if str_lookup(a1, k) is Some {
                    str_lookup(a1, k)
                } else if exists|m: int| 0 <= m < t - 1 && (#[trigger] b2[m]).0 == k {
                    str_lookup(b2, k)
                } else {
                    None
                });
                if k == kt {
                    assert(b2[t - 1].0 == k);
                }
                if exists|m: int| 0 <= m < t && (#[trigger] b2[m]).0 == k {
                    let m = choose|m: int| 0 <= m < t && (#[trigger] b2[m]).0 == k;
                    if m < t - 1 {
                        assert(exists|m2: int| 0 <= m2 < t - 1 && (#[trigger] b2[m2]).0 == k);
                    }
                } else {
                    assert(k != kt);
                    assert(!(exists|m2: int| 0 <= m2 < t - 1 && (#[trigger] b2[m2]).0 == k)) by {
                        if exists|m2: int| 0 <= m2 < t - 1 && (#[trigger] b2[m2]).0 == k {
                            let m2 = choose|m2: int| 0 <= m2 < t - 1 && (#[trigger] b2[m2]).0 == k;
                            assert(0 <= m2 < t && b2[m2].0 == k);
                        }
                    }
                }
            }
        }
    }
    let ghost a2 = aliases@;
    proof {
        assert forall|k: Seq<char>| #[trigger]
            str_lookup(a2, k) == match str_lookup(sa, k) {
                Some(v) => Some(v),
                None => match first_keyed(es, k, es.len() as int) {
                    Some(id) => Some(id),
                    None => bare_target(es, k),
                },
            } by {
            if has_key(b2, k) {
                let m = choose|m: int| 0 <= m < b2.len() && (#[trigger] b2[m]).0 == k;
                assert(0 <= m < nb && b2[m].0 == k);
            }
        }
    }
    let compat = mappings.compatibility_library_aliases();
    let ghost cp = compat_alias_pairs();
    let mut c: usize = 0;
    while c < compat.len()
        invariant
            compat@.map_values(|p: (&'static str, &'static str)| (p.0@, p.1@)) == cp,
            cp == compat_alias_pairs(),
            es == stdlib@,
            c <= compat@.len(),
            forall|k: Seq<char>| #[trigger]
                str_lookup(aliases@, k) == if str_lookup(a2, k) is Some {
                    str_lookup(a2, k)
                } else {
                    compat_target(es, k, c as int)
                },
        decreases compat@.len() - c,
    {
        let (alias, target) = compat[c];
        proof {
            assert(cp[c as int] == (alias@, target@));
        }
        add_compat_stdlib_alias(&mut aliases, stdlib, alias, target);
        c = c + 1;
    }
    aliases
}


// ------------------------------------------------------------ feature index

/// A library id split at its last `::` into owner and name.
pub open spec fn split_owner(id: Seq<char>) -> Option<(Seq<char>, Seq<char>)> {
    match last_index(id, "::"@) {
        Some(i) => Some((id.take(i), id.skip(i + 2))),
        None => None,
    }
}

/// The id of the first of the first `m` elements that is a feature of
/// owner `o` named `n`.
pub open spec fn direct_feature(es: Seq<LibraryElement>, o: Seq<char>, n: Seq<char>, m: int) -> Option<Seq<char>>
    decreases m,
{
    if m <= 0 {
        None
    } else {
        match direct_feature(es, o, n, m - 1) {
            Some(x) => Some(x),
            None => if split_owner(es[m - 1].id@) == Some((o, n)) {
                Some(es[m - 1].id@)
            } else {
                None
            },
        }
    }
}

/// The library's own feature of owner `o` named `n`: the first element
/// whose id is `o::n`.
pub open spec fn library_direct(es: Seq<LibraryElement>, o: Seq<char>, n: Seq<char>) -> Option<Seq<char>> {
    direct_feature(es, o, n, es.len() as int)
}

/// The direct features of the library, by owner and then by name.
fn build_direct_features(stdlib: &[LibraryElement]) -> (r: StrMap<StrMap<String>>)
    ensures
        forall|o: Seq<char>, n: Seq<char>| #[trigger]
            library_direct(stdlib@, o, n) == match lookup(r@, o) {
                Some(m) => str_lookup(m@, n),
                None => None,
            },
{
    let ghost es = stdlib@;
    let mut direct: StrMap<StrMap<String>> = StrMap::new();
    let mut i: usize = 0;
    while i < stdlib.len()
        invariant
            es == stdlib@,
            i <= es.len(),
            forall|o: Seq<char>, n: Seq<char>| #[trigger]
                direct_feature(es, o, n, i as int) == match lookup(direct@, o) {
                    Some(m) => str_lookup(m@, n),
                    None => None,
                },
        decreases es.len() - i,
    {
        proof {
            reveal_strlit("::");
        }
        let element = &stdlib[i];
        let ghost d0 = direct@;
        let ghost k = i as int;
        match rsplit_once_str(element.id.as_str(), "::") {
            Some((owner, name)) => {
                assert(split_owner(es[k].id@) == Some((owner@, name@)));
                let ghost idv = element.id@;
                let updated: Option<StrMap<String>> = match direct.get(owner.as_str()) {
                    Some(inner) => {
                        if inner.contains_key(name.as_str()) {
                            None
                        } else {
                            let mut c = inner.copy();
                            let v = owned(element.id.as_str());
                            let ghost vv = v;
                            c.insert(owned(name.as_str()), v);
                            proof {
                                assert forall|q: Seq<char>| #[trigger] str_lookup(c@, q) == if q == name@ {
                                    Some(idv)
                                } else {
                                    str_lookup(inner@, q)
                                } by {
                                    assert(lookup(c@, q) == if q == name@ {
                                        Some(vv)
                                    } else {
                                        lookup(inner@, q)
                                    });
                                }
                            }
                            Some(c)
                        }
                    },
                    None => {
                        let mut c: StrMap<String> = StrMap::new();
                        let v = owned(element.id.as_str());
                        let ghost vv = v;
                        c.insert(owned(name.as_str()), v);
                        proof {
                            assert forall|q: Seq<char>| #[trigger] str_lookup(c@, q) == if q == name@ {
                                Some(idv)
                            } else {
                                None
                            } by {
                                assert(lookup(c@, q) == if q == name@ {
                                    Some(vv)
                                } else {
                                    lookup(Seq::<(Seq<char>, String)>::empty(), q)
                                });
                            }
                        }
                        Some(c)
                    },
                };
                let ghost upd = updated;
                match updated {
                    Some(c) => {
                        direct.insert(owner, c);
                    },
                    None => {},
                }
                proof {
                    assert forall|o: Seq<char>, n: Seq<char>| #[trigger]
                        direct_feature(es, o, n, k + 1) == match lookup(direct@, o) {
                            Some(m) => str_lookup(m@, n),
                            None => None,
                        } by {
                        assert(direct_feature(es, o, n, k) == match lookup(d0, o) {
                            Some(m) => str_lookup(m@, n),
                            None => None,
                        });
                        match upd {
                            Some(c) => {
                                if o != owner@ {
                                    assert(lookup(direct@, o) == lookup(d0, o));
                                }
                            },
                            None => {},
                        }
                        if o == owner@ {
                            match upd {
                                Some(c) => {
                                    assert(lookup(direct@, o) == Some(c));
                                    if n != name@ {
                                        match lookup(d0, o) {
                                            Some(m) => {
                                                assert(str_lookup(c@, n) == str_lookup(m@, n));
                                            },
                                            None => {
                                                assert(str_lookup(c@, n) is None);
                                            },
                                        }
                                    }
                                },
                                None => {},
                            }
                        }
                    }
                }
            },
            None => {
                proof {
                    assert(split_owner(es[k].id@) is None);
                    assert forall|o: Seq<char>, n: Seq<char>| #[trigger]
                        direct_feature(es, o, n, k + 1) == match lookup(direct@, o) {
                            Some(m) => str_lookup(m@, n),
                            None => None,
                        } by {
                        assert(direct_feature(es, o, n, k) == match lookup(d0, o) {
                            Some(m) => str_lookup(m@, n),
                            None => None,
                        });
                    }
                }
            },
        }
        i = i + 1;
    }
    direct
}

/// Whether `v` holds `x`.
fn holds_string(v: &Vec<String>, x: &str) -> (r: bool)
    ensures
        r == exists|j: int| 0 <= j < v@.len() && (#[trigger] v@[j])@ == x@,
{
    let mut i: usize = 0;
    while i < v.len()
        invariant
            i <= v@.len(),
            forall|j: int| 0 <= j < i ==> (#[trigger] v@[j])@ != x@,
        decreases v@.len() - i,
    {
        if str_eq(v[i].as_str(), x) {
            return true;
        }
        i = i + 1;
    }
    false
}

/// The entry for an element with feature types `e` has a feature named
/// like each direct feature of each of those types.
pub open spec fn types_kept(
    resolved: Seq<(Seq<char>, StrMap<String>)>,
    direct: Seq<(Seq<char>, StrMap<String>)>,
    e: (Seq<char>, Vec<String>),
) -> bool {
    lookup(resolved, e.0) matches Some(m) && forall|y: int, n: Seq<char>|
        0 <= y < e.1@.len() && #[trigger] crate::lowering::indexes::parent_has(direct, e.1@[y]@, n) ==> str_lookup(
            m@,
            n,
        ) is Some
}

/// No element after the `i`-th has its id.
pub open spec fn last_of_id(es: Seq<LibraryElement>, i: int) -> bool {
    forall|k: int| i < k < es.len() ==> (#[trigger] es[k]).id@ != es[i].id@
}

/// `ps` begins with the names `own`.
pub open spec fn begins_with(ps: Seq<String>, own: Seq<String>) -> bool {
    own.len() <= ps.len() && forall|j: int| 0 <= j < own.len() ==> (#[trigger] ps[j])@ == own[j]@
}

/// The library's feature index: for every library element, the features
/// it has (those inherited through what it specializes, then its own), and
/// for every element that names types, also the features of those types
/// that it lacks.
pub fn build_stdlib_feature_index(stdlib: &[LibraryElement], mappings: &MappingBundle) -> (r: StrMap<StrMap<String>>)
    ensures
        forall|o: Seq<char>, n: Seq<char>| #[trigger] str_lookup(lookup(r@, o)->Some_0@, n) is Some && lookup(r@, o) is Some
            ==> exists|o2: Seq<char>| #[trigger]
                library_direct(stdlib@, o2, n) == str_lookup(lookup(r@, o)->Some_0@, n),
        forall|i: int| 0 <= i < stdlib@.len() ==> #[trigger] lookup(r@, stdlib@[i].id@) is Some,
        forall|i: int, n: Seq<char>| 0 <= i < stdlib@.len() && #[trigger] library_direct(stdlib@, stdlib@[i].id@, n) is Some
            ==> str_lookup(lookup(r@, stdlib@[i].id@)->Some_0@, n) == library_direct(stdlib@, stdlib@[i].id@, n),
        forall|i: int, j: int, n: Seq<char>|
            0 <= i < stdlib@.len() && last_of_id(stdlib@, i) && 0 <= j < stdlib@[i].specializes@.len()
                && #[trigger] library_direct(stdlib@, stdlib@[i].specializes@[j]@, n) is Some ==> str_lookup(
                lookup(r@, stdlib@[i].id@)->Some_0@,
                n,
            ) is Some,
        forall|i: int, j: int, n: Seq<char>|
            0 <= i < stdlib@.len() && last_of_id(stdlib@, i) && 0 <= j < stdlib@[i].types@.len()
                && #[trigger] library_direct(stdlib@, stdlib@[i].types@[j]@, n) is Some ==> str_lookup(
                lookup(r@, stdlib@[i].id@)->Some_0@,
                n,
            ) is Some,
{
    let ghost es = stdlib@;
    let direct = build_direct_features(stdlib);
    let mut specializations: StrMap<Vec<String>> = StrMap::new();
    let mut feature_types: StrMap<Vec<String>> = StrMap::new();
    let mut i: usize = 0;
    while i < stdlib.len()
        invariant
            es == stdlib@,
            i <= es.len(),
            forall|j: int| 0 <= j < i ==> #[trigger] has_key(specializations@, es[j].id@),
            forall|q: Seq<char>| #[trigger] has_key(feature_types@, q) ==> has_key(specializations@, q),
            forall|j: int|
                0 <= j < i && (forall|k: int| j < k < i ==> (#[trigger] es[k]).id@ != es[j].id@) ==> (lookup(
                    specializations@,
                    #[trigger] es[j].id@,
                ) matches Some(ps) && begins_with(ps@, es[j].specializes@)),
            forall|j: int|
                0 <= j < i && (forall|k: int| j < k < i ==> (#[trigger] es[k]).id@ != es[j].id@) && es[j].types@.len()
                    > 0 ==> (lookup(feature_types@, #[trigger] es[j].id@) matches Some(v) && begins_with(
                    v@,
                    es[j].types@,
                )),
        decreases es.len() - i,
    {
        let element = &stdlib[i];
        let mut parents = crate::kerml::ast::clone_strings(&element.specializes);
        assert(begins_with(parents@, element.specializes@)) by {
            assert forall|j: int| 0 <= j < element.specializes@.len() implies (#[trigger] parents@[j])@
                == element.specializes@[j]@ by {
                assert(crate::kerml::ast::strings_view(parents@)[j] == crate::kerml::ast::strings_view(
                    element.specializes@,
                )[j]);
            }
        }
        let semantic = mappings.semantic_specializations_for_definition(element.kind.as_str());
        let mut s: usize = 0;
        while s < semantic.len()
            invariant
                s <= semantic@.len(),
                begins_with(parents@, element.specializes@),
            decreases semantic@.len() - s,
        {
            let parent = semantic[s].as_str();
            if !str_eq(parent, element.id.as_str()) && !holds_string(&parents, parent) {
                parents.push(owned(parent));
            }
            s = s + 1;
        }
        let ghost sp0 = specializations@;
        let ghost ft0 = feature_types@;
        specializations.insert(owned(element.id.as_str()), parents);
        if element.types.len() > 0 {
            let tv = crate::kerml::ast::clone_strings(&element.types);
            assert(begins_with(tv@, element.types@)) by {
                assert forall|j: int| 0 <= j < element.types@.len() implies (#[trigger] tv@[j])@ == element.types@[j]@ by {
                    assert(crate::kerml::ast::strings_view(tv@)[j] == crate::kerml::ast::strings_view(element.types@)[j]);
                }
            }
            feature_types.insert(owned(element.id.as_str()), tv);
        }
        i = i + 1;
        proof {
            let x = es[i - 1].id@;
            assert(lookup(specializations@, x) is Some);
            assert forall|j: int| 0 <= j < i implies #[trigger] has_key(specializations@, es[j].id@) by {
                if j < i - 1 {
                    assert(has_key(sp0, es[j].id@));
                    assert(lookup(specializations@, es[j].id@) is Some);
                }
            }
            assert forall|q: Seq<char>| #[trigger] has_key(feature_types@, q) implies has_key(specializations@, q) by {
                if q != x {
                    assert(lookup(feature_types@, q) == lookup(ft0, q));
                    assert(has_key(sp0, q));
                    assert(lookup(specializations@, q) == lookup(sp0, q));
                }
                assert(lookup(specializations@, q) is Some);
            }
            assert forall|j: int|
                0 <= j < i && (forall|k: int| j < k < i ==> (#[trigger] es[k]).id@ != es[j].id@) implies (lookup(
                    specializations@,
                    #[trigger] es[j].id@,
                ) matches Some(ps) && begins_with(ps@, es[j].specializes@)) by {
                if j < i - 1 {
                    assert(es[i - 1].id@ != es[j].id@);
                    assert(lookup(specializations@, es[j].id@) == lookup(sp0, es[j].id@));
                }
            }
            assert forall|j: int|
                0 <= j < i && (forall|k: int| j < k < i ==> (#[trigger] es[k]).id@ != es[j].id@) && es[j].types@.len()
                    > 0 implies (lookup(feature_types@, #[trigger] es[j].id@) matches Some(v) && begins_with(
                    v@,
                    es[j].types@,
                )) by {
                if j < i - 1 {
                    assert(es[i - 1].id@ != es[j].id@);
                    assert(lookup(feature_types@, es[j].id@) == lookup(ft0, es[j].id@));
                }
            }
        }
    }
    let mut resolved: StrMap<StrMap<String>> = StrMap::new();
    let mut resolving: StrSet = StrMap::new();
    let ns = specializations.len();
    let mut t: usize = 0;
    while t < ns
        invariant
            ns == specializations@.len(),
            t <= ns,
            resolving@.len() == 0,
            crate::lowering::indexes::cache_ok(resolved@, direct@),
            crate::lowering::indexes::cache_inherits(resolved@, direct@, specializations@),
            forall|m: int| 0 <= m < t ==> #[trigger] has_key(resolved@, specializations@[m].0),
        decreases ns - t,
    {
        let ghost r0 = resolved@;
        let owner = specializations.key_at(t);
        let _ = crate::lowering::indexes::collect_stdlib_owner_features(
            owner.as_str(),
            &direct,
            &specializations,
            &mut resolved,
            &mut resolving,
        );
        proof {
            assert(!has_key(Seq::<(Seq<char>, ())>::empty(), specializations@[t as int].0));
            assert(resolving@ =~= Seq::<(Seq<char>, ())>::empty());
            assert forall|m: int| 0 <= m < t + 1 implies #[trigger] has_key(resolved@, specializations@[m].0) by {
                if m < t {
                    assert(has_key(r0, specializations@[m].0));
                    assert(lookup(resolved@, specializations@[m].0) == lookup(r0, specializations@[m].0));
                }
            }
        }
        t = t + 1;
    }
    proof {
        assert forall|q: Seq<char>| #[trigger] has_key(specializations@, q) implies has_key(resolved@, q) by {
            let m = choose|m: int| 0 <= m < specializations@.len() && (#[trigger] specializations@[m]).0 == q;
            assert(0 <= m < ns && specializations@[m].0 == q);
        }
    }
    let nf = feature_types.len();
    let mut u: usize = 0;
    while u < nf
        invariant
            nf == feature_types@.len(),
            u <= nf,
            resolving@.len() == 0,
            crate::lowering::indexes::cache_ok(resolved@, direct@),
            crate::lowering::indexes::cache_inherits(resolved@, direct@, specializations@),
            forall|q: Seq<char>| #[trigger] has_key(specializations@, q) ==> has_key(resolved@, q),
            forall|q: Seq<char>| #[trigger] has_key(feature_types@, q) ==> has_key(specializations@, q),
            crate::strmap::keys_sorted(feature_types@),
            forall|w: int| 0 <= w < u ==> #[trigger] types_kept(resolved@, direct@, feature_types@[w]),
        decreases nf - u,
    {
        let fid = feature_types.key_at(u);
        let types = feature_types.value_at(u);
        let ghost fq = fid@;
        proof {
            assert(has_key(feature_types@, fq)) by {
                assert(feature_types@[u as int].0 == fq);
            }
        }
        let mut features = match resolved.get(fid.as_str()) {
            Some(m) => m.copy(),
            None => StrMap::new(),
        };
        proof {
            assert(has_key(resolved@, fq));
            assert(lookup(resolved@, fq) is Some);
        }
        let ghost fstart = features@;
        assert(crate::lowering::indexes::inherits_parents(fq, fstart, direct@, specializations@));
        let mut y: usize = 0;
        while y < types.len()
            invariant
                y <= types@.len(),
                resolving@.len() == 0,
                crate::lowering::indexes::cache_ok(resolved@, direct@),
                forall|q: Seq<char>| #[trigger] has_key(specializations@, q) ==> has_key(resolved@, q),
                crate::lowering::indexes::cache_inherits(resolved@, direct@, specializations@),
                crate::lowering::indexes::made_of_direct(features@, direct@),
                crate::lowering::indexes::keeps_direct(fq, features@, direct@),
                forall|n: Seq<char>| #[trigger] str_lookup(fstart, n) is Some ==> str_lookup(features@, n) is Some,
                forall|w: int| 0 <= w < u ==> #[trigger] types_kept(resolved@, direct@, feature_types@[w]),
                *types == feature_types@[u as int].1,
                forall|z: int, n: Seq<char>|
                    0 <= z < y && #[trigger] crate::lowering::indexes::parent_has(direct@, types@[z]@, n) ==> str_lookup(
                        features@,
                        n,
                    ) is Some,
            decreases types@.len() - y,
        {
            let ghost r0 = resolved@;
            let ghost fbefore = features@;
            let got = crate::lowering::indexes::collect_stdlib_owner_features(
                types[y].as_str(),
                &direct,
                &specializations,
                &mut resolved,
                &mut resolving,
            );
            proof {
                assert(resolving@ =~= Seq::<(Seq<char>, ())>::empty());
                assert forall|q: Seq<char>| #[trigger] has_key(specializations@, q) implies has_key(resolved@, q) by {
                    assert(has_key(r0, q));
                    assert(lookup(resolved@, q) == lookup(r0, q));
                }
                assert forall|w: int| 0 <= w < u implies #[trigger] types_kept(resolved@, direct@, feature_types@[w]) by {
                    assert(types_kept(r0, direct@, feature_types@[w]));
                    assert(has_key(r0, feature_types@[w].0));
                }
            }
            let ng = got.len();
            let mut g: usize = 0;
            while g < ng
                invariant
                    ng == got@.len(),
                    g <= ng,
                    crate::strmap::keys_sorted(got@),
                    crate::lowering::indexes::made_of_direct(got@, direct@),
                    crate::lowering::indexes::made_of_direct(features@, direct@),
                    crate::lowering::indexes::keeps_direct(fq, features@, direct@),
                    forall|n: Seq<char>| #[trigger] str_lookup(fstart, n) is Some ==> str_lookup(features@, n) is Some,
                    forall|n: Seq<char>| #[trigger] str_lookup(fbefore, n) is Some ==> str_lookup(features@, n) is Some,
                    forall|q: int| 0 <= q < g ==> str_lookup(features@, (#[trigger] got@[q]).0) is Some,
                decreases ng - g,
            {
                let name = got.key_at(g);
                let ghost f0 = features@;
                let ghost gn = got@[g as int].0;
                proof {
                    crate::strmap::lemma_lookup_at(got@, g as int);
                }
                if !features.contains_key(name.as_str()) {
                    features.insert(owned(name.as_str()), owned(got.value_at(g).as_str()));
                    proof {
                        assert forall|n: Seq<char>| #[trigger] str_lookup(features@, n) == if n == gn {
                            Some(got@[g as int].1@)
                        } else {
                            str_lookup(f0, n)
                        } by {}
                        assert(str_lookup(got@, gn) == Some(got@[g as int].1@));
                        assert forall|n: Seq<char>| #[trigger] str_lookup(fstart, n) is Some implies str_lookup(
                            features@,
                            n,
                        ) is Some by {
                            assert(str_lookup(f0, n) is Some);
                        }
                        assert forall|n: Seq<char>| #[trigger] str_lookup(fbefore, n) is Some implies str_lookup(
                            features@,
                            n,
                        ) is Some by {
                            assert(str_lookup(f0, n) is Some);
                        }
                        assert forall|q: int| 0 <= q < g + 1 implies str_lookup(features@, (#[trigger] got@[q]).0) is Some by {
                            if q < g {
                                assert(str_lookup(f0, got@[q].0) is Some);
                            }
                        }
                        assert forall|n: Seq<char>| #[trigger] str_lookup(features@, n) is Some
                            implies crate::lowering::indexes::direct_entry(direct@, n, str_lookup(features@, n)->Some_0) by {
                            let id = str_lookup(features@, n)->Some_0;
                            if n == gn {
                                assert(str_lookup(got@, n) == Some(id));
                            } else {
                                assert(str_lookup(f0, n) == Some(id));
                            }
                        }
                        match lookup(direct@, fq) {
                            Some(d) => {
                                assert forall|n: Seq<char>| #[trigger] str_lookup(d@, n) is Some implies str_lookup(
                                    features@,
                                    n,
                                ) == str_lookup(d@, n) by {
                                    assert(str_lookup(f0, n) == str_lookup(d@, n));
                                    if n == gn {
                                        assert(str_lookup(f0, n) is None);
                                    }
                                }
                            },
                            None => {},
                        }
                    }
                }
                else {
                    assert(has_key(features@, gn));
                    assert(lookup(features@, gn) is Some);
                }
                g = g + 1;
            }
            proof {
                assert(crate::lowering::indexes::keeps_direct(types@[y as int]@, got@, direct@));
                assert forall|z: int, n: Seq<char>|
                    0 <= z < y + 1 && #[trigger] crate::lowering::indexes::parent_has(direct@, types@[z]@, n)
                        implies str_lookup(features@, n) is Some by {
                    if z == y {
                        assert(str_lookup(got@, n) is Some);
                        assert(has_key(got@, n));
                        let q = choose|q: int| 0 <= q < got@.len() && (#[trigger] got@[q]).0 == n;
                        assert(str_lookup(features@, got@[q].0) is Some);
                    } else {
                        assert(str_lookup(fbefore, n) is Some);
                    }
                }
            }
            y = y + 1;
        }
        let ghost r2 = resolved@;
        let ghost fdone = features@;
        proof {
            assert(types@.len() == feature_types@[u as int].1@.len());
        }
        if features.len() > 0 {
            let ghost r1 = resolved@;
            let ghost fv = features;
            resolved.insert(owned(fid.as_str()), features);
            proof {
                assert forall|o: Seq<char>| #[trigger] lookup(resolved@, o) is Some implies (
                crate::lowering::indexes::made_of_direct(lookup(resolved@, o)->Some_0@, direct@)
                    && crate::lowering::indexes::keeps_direct(o, lookup(resolved@, o)->Some_0@, direct@)) by {
                    if o != fq {
                        assert(lookup(resolved@, o) == lookup(r1, o));
                    } else {
                        assert(lookup(resolved@, o) == Some(fv));
                    }
                }
                assert forall|o: Seq<char>| #[trigger] lookup(resolved@, o) is Some implies crate::lowering::indexes::inherits_parents(
                    o,
                    lookup(resolved@, o)->Some_0@,
                    direct@,
                    specializations@,
                ) by {
                    if o != fq {
                        assert(lookup(resolved@, o) == lookup(r1, o));
                    } else {
                        assert(lookup(resolved@, o) == Some(fv));
                        match lookup(specializations@, fq) {
                            Some(ps) => {
                                assert forall|j: int, n: Seq<char>|
                                    0 <= j < ps@.len() && #[trigger] crate::lowering::indexes::parent_has(
                                        direct@,
                                        ps@[j]@,
                                        n,
                                    ) implies str_lookup(fv@, n) is Some by {
                                    assert(str_lookup(fstart, n) is Some);
                                }
                            },
                            None => {},
                        }
                    }
                }
                assert forall|q: Seq<char>| #[trigger] has_key(specializations@, q) implies has_key(resolved@, q) by {
                    assert(has_key(r1, q));
                    assert(lookup(resolved@, q) is Some);
                }
            }
        }
        proof {
            assert forall|w: int| 0 <= w < u + 1 implies #[trigger] types_kept(resolved@, direct@, feature_types@[w]) by {
                if w < u {
                    assert(types_kept(r2, direct@, feature_types@[w]));
                    assert(feature_types@[w].0 != fq) by {
                        assert(crate::text_order::seq_lt(feature_types@[w].0, feature_types@[u as int].0));
                        crate::text_order::lemma_seq_lt_irreflexive(feature_types@[w].0);
                    }
                    assert(lookup(resolved@, feature_types@[w].0) == lookup(r2, feature_types@[w].0));
                } else {
                    assert(feature_types@[w].0 == fq);
                    if fdone.len() > 0 {
                        assert(lookup(resolved@, fq)->Some_0@ == fdone);
                    } else {
                        assert forall|y: int, n: Seq<char>|
                            0 <= y < feature_types@[w].1@.len() && #[trigger] crate::lowering::indexes::parent_has(
                                direct@,
                                feature_types@[w].1@[y]@,
                                n,
                            ) implies str_lookup(lookup(resolved@, fq)->Some_0@, n) is Some by {
                            assert(str_lookup(fdone, n) is Some);
                            assert(has_key(fdone, n));
                        }
                    }
                }
            }
        }
        u = u + 1;
    }
    proof {
        assert forall|o: Seq<char>, n: Seq<char>| #[trigger] str_lookup(lookup(resolved@, o)->Some_0@, n) is Some
            && lookup(resolved@, o) is Some implies exists|o2: Seq<char>| #[trigger]
            library_direct(stdlib@, o2, n) == str_lookup(lookup(resolved@, o)->Some_0@, n) by {
            let m = lookup(resolved@, o)->Some_0;
            let id = str_lookup(m@, n)->Some_0;
            assert(crate::lowering::indexes::made_of_direct(m@, direct@));
            assert(crate::lowering::indexes::direct_entry(direct@, n, id));
            let o2 = choose|o2: Seq<char>| #[trigger]
                lookup(direct@, o2) matches Some(d) && str_lookup(d@, n) == Some(id);
            assert(library_direct(stdlib@, o2, n) == Some(id));
        }
        assert forall|i: int| 0 <= i < stdlib@.len() implies #[trigger] lookup(resolved@, stdlib@[i].id@) is Some by {
            assert(has_key(specializations@, es[i].id@));
        }
        assert forall|i: int, n: Seq<char>| 0 <= i < stdlib@.len() && #[trigger] library_direct(
            stdlib@,
            stdlib@[i].id@,
            n,
        ) is Some implies str_lookup(lookup(resolved@, stdlib@[i].id@)->Some_0@, n) == library_direct(
            stdlib@,
            stdlib@[i].id@,
            n,
        ) by {
            let x = es[i].id@;
            assert(has_key(specializations@, x));
            let m = lookup(resolved@, x)->Some_0;
            assert(crate::lowering::indexes::keeps_direct(x, m@, direct@));
            let d = lookup(direct@, x)->Some_0;
            assert(str_lookup(d@, n) is Some);
        }
        assert forall|i: int, j: int, n: Seq<char>|
            0 <= i < stdlib@.len() && last_of_id(stdlib@, i) && 0 <= j < stdlib@[i].specializes@.len()
                && #[trigger] library_direct(stdlib@, stdlib@[i].specializes@[j]@, n) is Some implies str_lookup(
                lookup(resolved@, stdlib@[i].id@)->Some_0@,
                n,
            ) is Some by {
            let x = es[i].id@;
            assert(forall|k: int| i < k < es.len() ==> (#[trigger] es[k]).id@ != es[i].id@);
            let ps = lookup(specializations@, x)->Some_0;
            assert(begins_with(ps@, es[i].specializes@));
            assert(ps@[j]@ == es[i].specializes@[j]@);
            assert(has_key(specializations@, x));
            let m = lookup(resolved@, x)->Some_0;
            assert(crate::lowering::indexes::inherits_parents(x, m@, direct@, specializations@));
            assert(crate::lowering::indexes::parent_has(direct@, ps@[j]@, n));
        }
        assert forall|i: int, j: int, n: Seq<char>|
            0 <= i < stdlib@.len() && last_of_id(stdlib@, i) && 0 <= j < stdlib@[i].types@.len()
                && #[trigger] library_direct(stdlib@, stdlib@[i].types@[j]@, n) is Some implies str_lookup(
                lookup(resolved@, stdlib@[i].id@)->Some_0@,
                n,
            ) is Some by {
            let x = es[i].id@;
            assert(forall|k: int| i < k < es.len() ==> (#[trigger] es[k]).id@ != es[i].id@);
            let v = lookup(feature_types@, x)->Some_0;
            assert(begins_with(v@, es[i].types@));
            assert(has_key(feature_types@, x));
            let w = choose|w: int| 0 <= w < feature_types@.len() && (#[trigger] feature_types@[w]).0 == x;
            crate::strmap::lemma_lookup_at(feature_types@, w);
            assert(feature_types@[w].1 == v);
            assert(types_kept(resolved@, direct@, feature_types@[w]));
            assert(v@[j]@ == es[i].types@[j]@);
            assert(crate::lowering::indexes::parent_has(direct@, feature_types@[w].1@[j]@, n));
        }
    }
    resolved
}

} // verus!
