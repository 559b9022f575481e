//! Name and namespace helpers shared by resolution.
use vstd::prelude::*;

use crate::kerml::ast::{QualifiedName, QualifiedNameView, strings_view};
use crate::kerml::token::SourceSpan;
use crate::lowering::collect::ImportAliases;
use crate::lowering::ir::ResolvedPackage;
use crate::strmap::{StrMap, lookup};
use crate::text::{
    after_last, before_first, concat3, contains_char, contains_str, ends_with, has_sub, is_prefix,
    is_suffix, last_index, lemma_last_index, occurs_at, replace_all, replace_str, rsplit_once_str,
    split_on, split_str, before_first_str, starts_with, str_eq, trim_end, trim_end_str,
};

verus! {

/// `suf` is a suffix of `s`.
pub open spec fn seq_suffix<T>(suf: Seq<T>, s: Seq<T>) -> bool {
    suf.len() <= s.len() && s.subrange(s.len() - suf.len(), s.len() as int) == suf
}

/// Whether `shorter` is a suffix of `longer`, segment by segment.
pub fn qualified_name_suffix_matches(longer: &[String], shorter: &[String]) -> (r: bool)
    ensures
        r == seq_suffix(strings_view(shorter@), strings_view(longer@)),
{
    let n = longer.len();
    let m = shorter.len();
    if n < m {
        return false;
    }
    let off = n - m;
    let mut i: usize = 0;
    while i < m
        invariant
            n == longer@.len(),
            m == shorter@.len(),
            off == n - m,
            i <= m,
            forall|j: int| 0 <= j < i ==> longer@[off + j]@ == (#[trigger] shorter@[j])@,
        decreases m - i,
    {
        if !str_eq(longer[off + i].as_str(), shorter[i].as_str()) {
            proof {
                let sv = strings_view(shorter@);
                let lv = strings_view(longer@);
                assert(lv.subrange(lv.len() - sv.len(), lv.len() as int)[i as int] != sv[i as int]);
            }
            return false;
        }
        i = i + 1;
    }
    proof {
        let sv = strings_view(shorter@);
        let lv = strings_view(longer@);
        assert(lv.subrange(lv.len() - sv.len(), lv.len() as int) =~= sv);
    }
    true
}

/// Whether two lists of strings are equal.
fn strings_equal(a: &[String], b: &[String]) -> (r: bool)
    ensures
        r == (strings_view(a@) == strings_view(b@)),
{
    if a.len() != b.len() {
        assert(strings_view(a@).len() != strings_view(b@).len());
        return false;
    }
    let mut i: usize = 0;
    while i < a.len()
        invariant
            a@.len() == b@.len(),
            i <= a@.len(),
            forall|j: int| 0 <= j < i ==> (#[trigger] a@[j])@ == b@[j]@,
        decreases a@.len() - i,
    {
        if !str_eq(a[i].as_str(), b[i].as_str()) {
            assert(strings_view(a@)[i as int] != strings_view(b@)[i as int]);
            return false;
        }
        i = i + 1;
    }
    assert(strings_view(a@) =~= strings_view(b@));
    true
}

/// Two names match when they are equal or one ends with the other.
pub open spec fn names_match(left: Seq<Seq<char>>, right: Seq<Seq<char>>) -> bool {
    left == right || seq_suffix(right, left) || seq_suffix(left, right)
}

/// Whether two qualified names denote the same element as far as their
/// segments tell: equal, or one a suffix of the other.
pub fn qualified_names_match(left: &QualifiedName, right: &QualifiedName) -> (r: bool)
    ensures
        r == names_match(left@.segments, right@.segments),
{
    strings_equal(left.segments.as_slice(), right.segments.as_slice())
        || qualified_name_suffix_matches(left.segments.as_slice(), right.segments.as_slice())
        || qualified_name_suffix_matches(right.segments.as_slice(), left.segments.as_slice())
}

/// The namespace alias for `first`: an import's, else a local one.
pub open spec fn namespace_alias(
    first: Seq<char>,
    local_aliases: Seq<(Seq<char>, QualifiedName)>,
    import_aliases: Seq<(Seq<char>, QualifiedName)>,
) -> Option<QualifiedName> {
    match lookup(import_aliases, first) {
        Some(q) => Some(q),
        None => lookup(local_aliases, first),
    }
}

/// `name` with its first segment replaced by the namespace it aliases, when
/// that changes the name.
pub open spec fn expanded_name(
    name: QualifiedNameView,
    local_aliases: Seq<(Seq<char>, QualifiedName)>,
    import_aliases: Seq<(Seq<char>, QualifiedName)>,
) -> Option<QualifiedNameView> {
    if name.segments.len() == 0 {
        None
    } else {
        match namespace_alias(name.segments[0], local_aliases, import_aliases) {
            Some(prefix) => {
                let segments = prefix@.segments + name.segments.skip(1);
                if segments == name.segments {
                    None
                } else {
                    Some(QualifiedNameView { segments, span: name.span })
                }
            },
            None => None,
        }
    }
}

/// Expands the first segment of `name` through the import namespace
/// aliases, or else the local ones.
pub fn expand_import_namespace_prefix(
    name: &QualifiedName,
    local_aliases: &StrMap<QualifiedName>,
    import_aliases: &ImportAliases,
) -> (r: Option<QualifiedName>)
    ensures
        match r {
            Some(q) => expanded_name(name@, local_aliases@, import_aliases.namespace_aliases@)
                == Some(q@),
            None => expanded_name(name@, local_aliases@, import_aliases.namespace_aliases@) is None,
        },
{
    if name.segments.len() == 0 {
        return None;
    }
    let first = name.segments[0].as_str();
    let prefix = match import_aliases.namespace_aliases.get(first) {
        Some(p) => p,
        None => match local_aliases.get(first) {
            Some(p) => p,
            None => {
                return None;
            },
        },
    };
    let mut segments: Vec<String> = Vec::new();
    let mut i: usize = 0;
    while i < prefix.segments.len()
        invariant
            i <= prefix.segments@.len(),
            segments@.len() == i,
            forall|j: int| 0 <= j < i ==> (#[trigger] segments@[j])@ == prefix.segments@[j]@,
        decreases prefix.segments@.len() - i,
    {
        segments.push(prefix.segments[i].clone());
        i = i + 1;
    }
    let np = segments.len();
    let mut k: usize = 1;
    while k < name.segments.len()
        invariant
            1 <= k <= name.segments@.len(),
            np == prefix.segments@.len(),
            segments@.len() == np + k - 1,
            forall|j: int| 0 <= j < np ==> (#[trigger] segments@[j])@ == prefix.segments@[j]@,
            forall|j: int| 1 <= j < k ==> (#[trigger] segments@[np + j - 1])@ == name.segments@[j]@,
        decreases name.segments@.len() - k,
    {
        segments.push(name.segments[k].clone());
        k = k + 1;
    }
    let expanded = QualifiedName { segments, span: name.span };
    proof {
        let want = prefix@.segments + name@.segments.skip(1);
        assert forall|j: int| 0 <= j < want.len() implies (#[trigger] expanded@.segments[j]) == want[j] by {
            if j >= np {
                assert(expanded.segments@[np + (j - np + 1) - 1] == expanded.segments@[j]);
            }
        }
        assert(expanded@.segments =~= want);
    }
    if strings_equal(expanded.segments.as_slice(), name.segments.as_slice()) {
        None
    } else {
        Some(expanded)
    }
}

/// The namespace an import target names: the part before `::*`, without
/// trailing `::`.
pub open spec fn import_prefix(target_id: Seq<char>) -> Seq<char> {
    trim_end(before_first(target_id, "::*"@), "::"@)
}

/// The namespace an import target names.
pub fn import_namespace_prefix(target_id: &str) -> (r: String)
    ensures
        r@ == import_prefix(target_id@),
{
    let head = before_first_str(target_id, "::*");
    trim_end_str(head.as_str(), "::")
}

/// What follows `prefix` in `qualified_name`, when that is one nonempty
/// segment (no `.` and no `::`).
pub open spec fn direct_child(qualified_name: Seq<char>, prefix: Seq<char>) -> Option<Seq<char>> {
    if is_prefix(prefix, qualified_name) {
        let rest = qualified_name.skip(prefix.len() as int);
        if rest.len() == 0 || rest.contains('.') || has_sub(rest, "::"@) {
            None
        } else {
            Some(rest)
        }
    } else {
        None
    }
}

/// The name of `qualified_name` as a direct child of `prefix`, if it is one.
pub fn direct_child_name<'a>(qualified_name: &'a str, prefix: &str) -> (r: Option<&'a str>)
    ensures
        match r {
            Some(c) => direct_child(qualified_name@, prefix@) == Some(c@),
            None => direct_child(qualified_name@, prefix@) is None,
        },
{
    if !starts_with(qualified_name, prefix) {
        return None;
    }
    let n = qualified_name.unicode_len();
    let p = prefix.unicode_len();
    let rest = qualified_name.substring_char(p, n);
    if n == p || contains_char(rest, '.') || contains_str(rest, "::") {
        None
    } else {
        Some(rest)
    }
}

/// The qualified name whose segments are the `.`-separated parts of
/// `value`.
pub fn dotted_name_to_qualified_name(value: &str, span: &SourceSpan) -> (r: QualifiedName)
    ensures
        r@.segments == split_on(value@, "."@),
        r@.span == *span,
{
    proof {
        reveal_strlit(".");
    }
    let parts = split_str(value, ".");
    let r = QualifiedName { segments: parts, span: *span };
    assert(r@.segments =~= split_on(value@, "."@));
    r
}

// ------------------------------------------------------------ local namespaces

/// The enclosing scopes of `cursor`, innermost first: `a.b.c`, `a.b`, `a`.
pub open spec fn scope_chain(cursor: Seq<char>) -> Seq<Seq<char>>
    decreases cursor.len(),
{
    if cursor.len() == 0 {
        Seq::empty()
    } else {
        match last_index(cursor, "."@) {
            Some(i) => if 0 <= i < cursor.len() {
                seq![cursor] + scope_chain(cursor.take(i))
            } else {
                seq![cursor]
            },
            None => seq![cursor],
        }
    }
}

/// `v` with `x` appended unless it is already there.
pub open spec fn push_new(v: Seq<Seq<char>>, x: Seq<char>) -> Seq<Seq<char>> {
    if v.contains(x) {
        v
    } else {
        v.push(x)
    }
}

/// `v` extended, scope by scope, with `scope.dotted`.
pub open spec fn add_scoped(v: Seq<Seq<char>>, chain: Seq<Seq<char>>, dotted: Seq<char>) -> Seq<
    Seq<char>,
>
    decreases chain.len(),
{
    if chain.len() == 0 {
        v
    } else {
        add_scoped(push_new(v, chain[0] + "."@ + dotted), chain.drop_first(), dotted)
    }
}

/// Where a namespace written in a package may live: as written, then under
/// each enclosing package from the innermost out, then under the root
/// package.
pub open spec fn namespace_candidates(dotted: Seq<char>, owner: Seq<char>, root: Option<Seq<char>>) -> Seq<
    Seq<char>,
> {
    let base = add_scoped(seq![dotted], scope_chain(owner), dotted);
    match root {
        Some(r) => if dotted != r && !is_prefix(r + "."@, dotted) {
            base.push(r + "."@ + dotted)
        } else {
            base
        },
        None => base,
    }
}

/// The package `q` is, or ends with, `candidate`.
pub open spec fn package_matches(q: Seq<char>, candidate: Seq<char>) -> bool {
    q == candidate || is_suffix("."@ + candidate, q)
}

/// The names among the first `n` packages that match `candidate`.
pub open spec fn matches_upto(pkgs: Seq<ResolvedPackage>, candidate: Seq<char>, n: int) -> Seq<
    Seq<char>,
>
    decreases n,
{
    if n <= 0 {
        Seq::empty()
    } else {
        matches_upto(pkgs, candidate, n - 1) + if package_matches(
            pkgs[n - 1].qualified_name@,
            candidate,
        ) {
            seq![pkgs[n - 1].qualified_name@]
        } else {
            Seq::empty()
        }
    }
}

/// The first candidate that exactly one package matches, as that package's
/// name.
pub open spec fn first_unique_match(cands: Seq<Seq<char>>, pkgs: Seq<ResolvedPackage>) -> Option<
    Seq<char>,
>
    decreases cands.len(),
{
    if cands.len() == 0 {
        None
    } else {
        let m = matches_upto(pkgs, cands[0], pkgs.len() as int);
        if m.len() == 1 {
            Some(m[0])
        } else {
            first_unique_match(cands.drop_first(), pkgs)
        }
    }
}

/// The package a `::`-separated namespace names from within the package
/// `owner_package_qualified_name`.
pub open spec fn local_namespace(
    namespace: Seq<char>,
    owner: Seq<char>,
    root: Option<Seq<char>>,
    pkgs: Seq<ResolvedPackage>,
) -> Option<Seq<char>> {
    first_unique_match(namespace_candidates(replace_all(namespace, "::"@, "."@), owner, root), pkgs)
}

/// The view of an optional string.
pub open spec fn opt_view(o: Option<String>) -> Option<Seq<char>> {
    match o {
        Some(s) => Some(s@),
        None => None,
    }
}

/// Whether `v` holds a string equal to `x`.
fn contains_string(v: &Vec<String>, x: &str) -> (r: bool)
    ensures
        r == strings_view(v@).contains(x@),
{
    let mut i: usize = 0;
    while i < v.len()
        invariant
            i <= v@.len(),
            forall|j: int| 0 <= j < i ==> (#[trigger] v@[j])@ != x@,
        decreases v@.len() - i,
    {
        if str_eq(v[i].as_str(), x) {
            assert(strings_view(v@)[i as int] == x@);
            return true;
        }
        i = i + 1;
    }
    false
}

/// The names of the packages matching `candidate`.
fn package_matches_of(packages: &[ResolvedPackage], candidate: &str) -> (m: Vec<String>)
    ensures
        strings_view(m@) == matches_upto(packages@, candidate@, packages@.len() as int),
{
    let suffix = concat3("", ".", candidate);
    let mut m: Vec<String> = Vec::new();
    let mut i: usize = 0;
    proof {
        reveal_strlit("");
    }
    while i < packages.len()
        invariant
            i <= packages@.len(),
            suffix@ == "."@ + candidate@,
            strings_view(m@) == matches_upto(packages@, candidate@, i as int),
        decreases packages@.len() - i,
    {
        let q = packages[i].qualified_name.as_str();
        if str_eq(q, candidate) || ends_with(q, suffix.as_str()) {
            let ghost before = m@;
            m.push(packages[i].qualified_name.clone());
            proof {
                assert(strings_view(m@) =~= strings_view(before).push(q@));
            }
        }
        proof {
            assert(matches_upto(packages@, candidate@, i + 1) =~= matches_upto(
                packages@,
                candidate@,
                i as int,
            ) + if package_matches(packages@[i as int].qualified_name@, candidate@) {
                seq![packages@[i as int].qualified_name@]
            } else {
                Seq::empty()
            });
        }
        i = i + 1;
    }
    m
}

proof fn lemma_add_scoped_step(v: Seq<Seq<char>>, chain: Seq<Seq<char>>, dotted: Seq<char>)
    requires
        chain.len() > 0,
    ensures
        add_scoped(v, chain, dotted) == add_scoped(
            push_new(v, chain[0] + "."@ + dotted),
            chain.drop_first(),
            dotted,
        ),
{
}

/// Resolves a `::`-separated namespace written in the package
/// `owner_package_qualified_name` to the one package it names: the first
/// candidate place (as written, under each enclosing package, under the
/// root package) that exactly one package matches.
pub fn resolve_local_namespace_dot(
    namespace: &str,
    owner_package_qualified_name: &str,
    root_package: &Option<String>,
    packages: &[ResolvedPackage],
) -> (r: Option<String>)
    ensures
        opt_view(r) == local_namespace(
            namespace@,
            owner_package_qualified_name@,
            opt_view(*root_package),
            packages@,
        ),
{
    proof {
        reveal_strlit("::");
        reveal_strlit(".");
    }
    let dotted = replace_str(namespace, "::", ".");
    let ghost dv = dotted@;
    let ghost want = add_scoped(seq![dv], scope_chain(owner_package_qualified_name@), dv);
    let mut candidates: Vec<String> = Vec::new();
    candidates.push(dotted.clone());
    let mut cursor = String::from_str(owner_package_qualified_name);
    assert(strings_view(candidates@) =~= seq![dv]);
    loop
        invariant_except_break
            add_scoped(strings_view(candidates@), scope_chain(cursor@), dv) == want,
        invariant
            dotted@ == dv,
        ensures
            strings_view(candidates@) == want,
        decreases cursor@.len(),
    {
        if cursor.unicode_len() == 0 {
            assert(scope_chain(cursor@) == Seq::<Seq<char>>::empty());
            break;
        }
        let candidate = concat3(cursor.as_str(), ".", dotted.as_str());
        let ghost before = strings_view(candidates@);
        let ghost chain = scope_chain(cursor@);
        if !contains_string(&candidates, candidate.as_str()) {
            candidates.push(candidate);
            proof {
                assert(strings_view(candidates@) =~= before.push(cursor@ + "."@ + dv));
            }
        }
        proof {
            lemma_last_index(cursor@, "."@);
            assert(chain[0] == cursor@);
            lemma_add_scoped_step(before, chain, dv);
            assert(strings_view(candidates@) == push_new(before, chain[0] + "."@ + dv));
        }
        match rsplit_once_str(cursor.as_str(), ".") {
            Some((parent, _)) => {
                proof {
                    reveal_strlit(".");
                    let i = last_index(cursor@, "."@)->Some_0;
                    assert(occurs_at(cursor@, "."@, i));
                    assert(0 <= i < cursor@.len());
                    assert(parent@ == cursor@.take(i));
                    assert(chain == seq![cursor@] + scope_chain(cursor@.take(i)));
                    assert(chain.drop_first() =~= scope_chain(parent@));
                }
                cursor = parent;
            },
            None => {
                proof {
                    assert(chain.drop_first() =~= Seq::<Seq<char>>::empty());
                }
                break;
            },
        }
    }
    match root_package {
        Some(root) => {
            if !str_eq(dotted.as_str(), root.as_str()) {
                let root_dot = concat3(root.as_str(), ".", "");
                proof {
                    reveal_strlit("");
                    assert(root_dot@ == root@ + "."@);
                }
                if !starts_with(dotted.as_str(), root_dot.as_str()) {
                    let ghost before = strings_view(candidates@);
                    candidates.push(concat3(root.as_str(), ".", dotted.as_str()));
                    proof {
                        assert(strings_view(candidates@) =~= before.push(root@ + "."@ + dv));
                    }
                }
            }
        },
        None => {},
    }
    let ghost cands = strings_view(candidates@);
    assert(cands == namespace_candidates(dv, owner_package_qualified_name@, opt_view(*root_package)));
    let mut k: usize = 0;
    assert(cands.skip(0) =~= cands);
    while k < candidates.len()
        invariant
            k <= candidates@.len(),
            cands == strings_view(candidates@),
            cands == namespace_candidates(dv, owner_package_qualified_name@, opt_view(*root_package)),
            dv == replace_all(namespace@, "::"@, "."@),
            first_unique_match(cands, packages@) == first_unique_match(cands.skip(k as int), packages@),
        decreases candidates@.len() - k,
    {
        let matches = package_matches_of(packages, candidates[k].as_str());
        proof {
            assert(cands.skip(k as int)[0] == candidates@[k as int]@);
            assert(cands.skip(k as int).drop_first() =~= cands.skip(k + 1));
        }
        if matches.len() == 1 {
            proof {
                let rest = cands.skip(k as int);
                let m = matches_upto(packages@, rest[0], packages@.len() as int);
                assert(strings_view(matches@) == m);
                assert(m.len() == 1);
                assert(first_unique_match(rest, packages@) == Some(m[0]));
                assert(matches@[0]@ == m[0]);
            }
            return Some(matches[0].clone());
        }
        k = k + 1;
    }
    None
}

} // verus!
