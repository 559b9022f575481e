//! Resolution against the module's own collected elements: imports,
//! annotation targets, self references, definitions named after action
//! usages, and the unique usage or feature a name selects.
use vstd::prelude::*;

use crate::kerml::ast::{QualifiedName, QualifiedNameView, join_colon, join_dot, names_view, strings_view};
use crate::kerml::token::Diagnostic;
use crate::lowering::collect::{CollectedDefinition, CollectedImport, CollectedImportView, CollectedUsage, CollectedUsageView, ImportAliases};
use crate::lowering::indexes::usage_lookup;
use crate::lowering::ir::ResolvedImport;
use crate::lowering::names::{expand_import_namespace_prefix, expanded_name};
use crate::lowering::resolve::{
    collect_matches, index_names, matching, opt_str_view, reference_candidates, scoped_reference_candidates, unique,
};
use crate::lowering::types::{import_target_ref, resolve_import_target};
use crate::strmap::{StrMap, has_key, lookup, str_lookup};
use crate::text::{chars_of, concat2, concat3, decimal, is_prefix, last_index, owned, rsplit_once_str, starts_with, str_eq, string_of, usize_to_string};

verus! {

// ---------------------------------------------------------------- imports

/// The target an import resolves to, when resolving it ends.
pub open spec fn import_target_of(
    path: QualifiedNameView,
    ids: Seq<Seq<char>>,
    sa: Seq<(Seq<char>, String)>,
    defs: Seq<(Seq<char>, String)>,
    la: Seq<(Seq<char>, QualifiedName)>,
) -> Option<Seq<char>> {
    import_target_ref(path, ids, sa, defs, la, choose|f: nat| import_target_ref(path, ids, sa, defs, la, f) is Some)->Some_0
}

/// Resolving the target of `path` ends.
pub open spec fn import_ends(
    path: QualifiedNameView,
    ids: Seq<Seq<char>>,
    sa: Seq<(Seq<char>, String)>,
    defs: Seq<(Seq<char>, String)>,
    la: Seq<(Seq<char>, QualifiedName)>,
) -> bool {
    exists|f: nat| import_target_ref(path, ids, sa, defs, la, f) is Some
}

/// The name an import brings in: its last segment, unless that is a
/// wildcard.
pub open spec fn imported_name_of(path: QualifiedNameView) -> Option<Seq<char>> {
    if path.segments.len() == 0 {
        None
    } else if path.segments.last() == "*"@ || path.segments.last() == "**"@ {
        None
    } else {
        Some(path.segments.last())
    }
}

/// The first of the first `n` imports whose target does not resolve.
pub open spec fn first_unresolved_import(
    imports: Seq<CollectedImportView>,
    ids: Seq<Seq<char>>,
    sa: Seq<(Seq<char>, String)>,
    defs: Seq<(Seq<char>, String)>,
    la: Seq<(Seq<char>, QualifiedName)>,
    n: int,
) -> Option<int>
    decreases n,
{
    if n <= 0 {
        None
    } else {
        match first_unresolved_import(imports, ids, sa, defs, la, n - 1) {
            Some(i) => Some(i),
            None => if import_target_of(imports[n - 1].decl.path, ids, sa, defs, la) is None {
                Some(n - 1)
            } else {
                None
            },
        }
    }
}

/// Import `r` is import `i`, the `ordinal`-th, resolved to `target`.
pub open spec fn resolved_import_is(r: ResolvedImport, i: CollectedImportView, target: Seq<char>, ordinal: int) -> bool {
    &&& crate::lowering::bundle::opt_string_view(r.owner_package_qualified_name) == i.owner
    &&& r.target_id@ == target
    &&& crate::lowering::bundle::opt_string_view(r.imported_name) == imported_name_of(i.decl.path)
    &&& strings_view(r.docs@) == i.decl.docs
    &&& r.span == i.decl.span
    &&& r.ordinal == ordinal
}

proof fn lemma_first_unresolved_bounds(
    imports: Seq<CollectedImportView>,
    ids: Seq<Seq<char>>,
    sa: Seq<(Seq<char>, String)>,
    defs: Seq<(Seq<char>, String)>,
    la: Seq<(Seq<char>, QualifiedName)>,
    n: int,
)
    ensures
        first_unresolved_import(imports, ids, sa, defs, la, n) matches Some(i) ==> 0 <= i < n
            && import_target_of(imports[i].decl.path, ids, sa, defs, la) is None,
    decreases n,
{
    if n > 0 {
        lemma_first_unresolved_bounds(imports, ids, sa, defs, la, n - 1);
    }
}

/// Resolves the target of each import, numbering them from 1 in order;
/// the first import whose target does not resolve is an error at that
/// import.
pub fn resolve_imports(
    imports: &[CollectedImport],
    stdlib_ids: &[String],
    stdlib_aliases: &StrMap<String>,
    local_definitions: &StrMap<String>,
    local_aliases: &StrMap<QualifiedName>,
) -> (r: Result<Vec<ResolvedImport>, Diagnostic>)
    requires
        forall|i: int|
            0 <= i < imports@.len() ==> import_ends(
                #[trigger] imports@[i]@.decl.path,
                strings_view(stdlib_ids@),
                stdlib_aliases@,
                local_definitions@,
                local_aliases@,
            ),
    ensures
        ({
            let iv = imports@.map_values(|i: CollectedImport| i@);
            let ids = strings_view(stdlib_ids@);
            match first_unresolved_import(iv, ids, stdlib_aliases@, local_definitions@, local_aliases@, iv.len() as int) {
                Some(k) => r matches Err(d) && d.message@ == "unresolved import `"@ + join_colon(iv[k].decl.path.segments)
                    + "`"@ && d.span == Some(iv[k].decl.span),
                None => r matches Ok(v) && v@.len() == iv.len() && forall|j: int|
                    0 <= j < iv.len() ==> resolved_import_is(
                        #[trigger] v@[j],
                        iv[j],
                        import_target_of(iv[j].decl.path, ids, stdlib_aliases@, local_definitions@, local_aliases@)->Some_0,
                        j + 1,
                    ),
            }
        }),
{
    let ghost iv = imports@.map_values(|i: CollectedImport| i@);
    let ghost ids = strings_view(stdlib_ids@);
    let mut resolved: Vec<ResolvedImport> = Vec::new();
    let mut i: usize = 0;
    while i < imports.len()
        invariant
            iv == imports@.map_values(|i: CollectedImport| i@),
            ids == strings_view(stdlib_ids@),
            i <= imports@.len(),
            resolved@.len() == i,
            forall|j: int|
                0 <= j < imports@.len() ==> import_ends(
                    #[trigger] imports@[j]@.decl.path,
                    ids,
                    stdlib_aliases@,
                    local_definitions@,
                    local_aliases@,
                ),
            first_unresolved_import(iv, ids, stdlib_aliases@, local_definitions@, local_aliases@, i as int) is None,
            forall|j: int|
                0 <= j < i ==> resolved_import_is(
                    #[trigger] resolved@[j],
                    iv[j],
                    import_target_of(iv[j].decl.path, ids, stdlib_aliases@, local_definitions@, local_aliases@)->Some_0,
                    j + 1,
                ),
        decreases imports@.len() - i,
    {
        let import = &imports[i];
        assert(iv[i as int] == import@);
        assert(import_ends(imports@[i as int]@.decl.path, ids, stdlib_aliases@, local_definitions@, local_aliases@));
        let target = resolve_import_target(&import.decl.path, stdlib_ids, stdlib_aliases, local_definitions, local_aliases);
        let ghost f = choose|f: nat|
            import_target_ref(import.decl.path@, ids, stdlib_aliases@, local_definitions@, local_aliases@, f) is Some;
        assert(opt_str_view(target) == import_target_of(import.decl.path@, ids, stdlib_aliases@, local_definitions@, local_aliases@));
        let target_id = match target {
            Some(t) => t,
            None => {
                proof {
                    reveal_strlit("unresolved import `");
                    reveal_strlit("`");
                    lemma_first_unresolved_stays(iv, ids, stdlib_aliases@, local_definitions@, local_aliases@, i + 1, iv.len() as int);
                }
                let path = import.decl.path.as_colon_string();
                let message = concat3("unresolved import `", path.as_str(), "`");
                return Err(Diagnostic::new(message.as_str(), Some(import.decl.span)));
            },
        };
        let n = import.decl.path.segments.len();
        let imported_name = if n == 0 {
            None
        } else {
            let last = import.decl.path.segments[n - 1].as_str();
            if str_eq(last, "*") || str_eq(last, "**") {
                None
            } else {
                Some(owned(last))
            }
        };
        proof {
            reveal_strlit("*");
            reveal_strlit("**");
            assert(crate::lowering::bundle::opt_string_view(imported_name) == imported_name_of(import.decl.path@));
        }
        let owner = match &import.owner_package_qualified_name {
            Some(o) => Some(owned(o.as_str())),
            None => None,
        };
        let entry = ResolvedImport {
            owner_package_qualified_name: owner,
            target_id,
            imported_name,
            docs: crate::kerml::ast::clone_strings(&import.decl.docs),
            span: import.decl.span,
            ordinal: resolved.len() + 1,
        };
        resolved.push(entry);
        i = i + 1;
    }
    proof {
        assert(iv.len() == imports@.len());
    }
    Ok(resolved)
}

proof fn lemma_first_unresolved_stays(
    imports: Seq<CollectedImportView>,
    ids: Seq<Seq<char>>,
    sa: Seq<(Seq<char>, String)>,
    defs: Seq<(Seq<char>, String)>,
    la: Seq<(Seq<char>, QualifiedName)>,
    k: int,
    n: int,
)
    requires
        0 < k <= n,
        first_unresolved_import(imports, ids, sa, defs, la, k) is Some,
    ensures
        first_unresolved_import(imports, ids, sa, defs, la, n) == first_unresolved_import(imports, ids, sa, defs, la, k),
    decreases n - k,
{
    if k < n {
        lemma_first_unresolved_stays(imports, ids, sa, defs, la, k, n - 1);
    }
}


// ---------------------------------------------------------------- element ids and annotation targets

/// The element id of a collected usage: a comment by its owner, name and
/// position, any other usage as a feature.
pub open spec fn usage_element_id(u: CollectedUsageView) -> Seq<char> {
    if u.construct == "CommentUsage"@ {
        "comment."@ + u.owner_qualified_name + "."@ + u.declared_name + "."@ + decimal(u.span.start_line as nat) + "."@
            + decimal(u.span.start_col as nat)
    } else {
        "feature."@ + u.qualified_name
    }
}

/// The element id of a collected usage.
pub fn collected_usage_element_id(usage: &CollectedUsage) -> (r: String)
    ensures
        r@ == usage_element_id(usage@),
{
    if str_eq(usage.construct.as_str(), "CommentUsage") {
        let line = usize_to_string(usage.span.start_line);
        let col = usize_to_string(usage.span.start_col);
        let mut id = concat2("comment.", usage.owner_qualified_name.as_str());
        id.append(".");
        id.append(usage.declared_name.as_str());
        id.append(".");
        id.append(line.as_str());
        id.append(".");
        id.append(col.as_str());
        proof {
            reveal_strlit(".");
            reveal_strlit("comment.");
            assert(id@ =~= usage_element_id(usage@));
        }
        id
    } else {
        concat2("feature.", usage.qualified_name.as_str())
    }
}

/// The first of the candidates from the `i`-th on that names a usage (by
/// its element id) or a definition of the module.
pub open spec fn annotation_target_from(
    candidates: Seq<Seq<char>>,
    defs: Seq<(Seq<char>, String)>,
    usages: Seq<(Seq<char>, CollectedUsage)>,
    i: int,
) -> Option<Seq<char>>
    decreases candidates.len() - i,
{
    if i < 0 || i >= candidates.len() {
        None
    } else {
        match usage_lookup(usages, candidates[i]) {
            Some(u) => Some(usage_element_id(u)),
            None => match str_lookup(defs, candidates[i]) {
                Some(d) => Some(d),
                None => annotation_target_from(candidates, defs, usages, i + 1),
            },
        }
    }
}

/// What an annotation written in usage `u` as `name` refers to: the
/// innermost usage or definition of that name, else the package of that
/// name when `u` lies in it.
pub open spec fn annotation_target(
    u: CollectedUsageView,
    name: QualifiedNameView,
    defs: Seq<(Seq<char>, String)>,
    usages: Seq<(Seq<char>, CollectedUsage)>,
) -> Option<Seq<char>> {
    let target = join_dot(name.segments);
    match annotation_target_from(reference_candidates(target, u.owner_qualified_name), defs, usages, 0) {
        Some(t) => Some(t),
        None => if u.owner_qualified_name == target || is_prefix(target + "."@, u.owner_qualified_name) {
            Some("pkg."@ + target)
        } else {
            None
        },
    }
}

/// Resolves what a comment's annotation written as `name` refers to.
pub fn resolve_comment_annotation_target(
    usage: &CollectedUsage,
    name: &QualifiedName,
    local_definitions: &StrMap<String>,
    local_usage_map: &StrMap<CollectedUsage>,
) -> (r: Option<String>)
    ensures
        opt_str_view(r) == annotation_target(usage@, name@, local_definitions@, local_usage_map@),
{
    let target_name = name.as_dot_string();
    let candidates = scoped_reference_candidates(target_name.as_str(), usage.owner_qualified_name.as_str());
    let ghost cs = strings_view(candidates@);
    let mut i: usize = 0;
    while i < candidates.len()
        invariant
            cs == strings_view(candidates@),
            cs == reference_candidates(target_name@, usage.owner_qualified_name@),
            target_name@ == join_dot(name@.segments),
            i <= candidates@.len(),
            annotation_target_from(cs, local_definitions@, local_usage_map@, 0) == annotation_target_from(
                cs,
                local_definitions@,
                local_usage_map@,
                i as int,
            ),
        decreases candidates@.len() - i,
    {
        let candidate = candidates[i].as_str();
        assert(cs[i as int] == candidate@);
        match local_usage_map.get(candidate) {
            Some(target_usage) => {
                return Some(collected_usage_element_id(target_usage));
            },
            None => {},
        }
        match local_definitions.get(candidate) {
            Some(d) => {
                return Some(owned(d.as_str()));
            },
            None => {},
        }
        i = i + 1;
    }
    proof {
        reveal_strlit(".");
        reveal_strlit("pkg.");
    }
    let dotted_target = concat2(target_name.as_str(), ".");
    if str_eq(usage.owner_qualified_name.as_str(), target_name.as_str()) || starts_with(
        usage.owner_qualified_name.as_str(),
        dotted_target.as_str(),
    ) {
        return Some(concat2("pkg.", target_name.as_str()));
    }
    None
}

/// Whether `name` is the usage's own name, simple or qualified.
pub fn is_self_feature_reference(usage: &CollectedUsage, name: &QualifiedName) -> (r: bool)
    ensures
        r == (join_dot(name@.segments) == usage.declared_name@ || join_dot(name@.segments) == usage.qualified_name@),
{
    let dotted = name.as_dot_string();
    str_eq(dotted.as_str(), usage.declared_name.as_str()) || str_eq(dotted.as_str(), usage.qualified_name.as_str())
}

// ---------------------------------------------------------------- definitions named by action usages

/// What `char::to_uppercase` gives for `c`, as characters.
pub uninterp spec fn char_uppercase(c: char) -> Seq<char>;

/// The upper case of `c` as a string: `char::to_uppercase` collected. The
/// contract names the result and states the ASCII letters, for which the
/// Unicode mapping is the ASCII one; the rest of the Unicode case tables
/// is not restated here.
#[verifier::external_body]
fn uppercase_of(c: char) -> (r: String)
    ensures
        r@ == char_uppercase(c),
        'a' <= c <= 'z' ==> r@ == seq![crate::lowering::emit::ascii_upper(c)],
{
    c.to_uppercase().collect()
}

/// `name` with its first character in upper case.
pub open spec fn capitalized(name: Seq<char>) -> Seq<char> {
    if name.len() == 0 {
        name
    } else {
        char_uppercase(name[0]) + name.drop_first()
    }
}

/// Whether usages of `construct` are action-like.
pub open spec fn action_like(construct: Seq<char>) -> bool {
    construct == "ActionUsage"@ || construct == "PerformActionUsage"@ || construct == "AcceptActionUsage"@
}

/// The definition an untyped action-like usage is named after: a local
/// definition with its name, or with its name capitalized.
pub open spec fn named_definition_type(u: CollectedUsageView, defs: Seq<(Seq<char>, String)>) -> Option<Seq<char>> {
    if u.ty is Some || u.declared_name.len() == 0 || !action_like(u.construct) {
        None
    } else {
        match str_lookup(defs, u.declared_name) {
            Some(t) => Some(t),
            None => {
                let p = capitalized(u.declared_name);
                if p != u.declared_name {
                    str_lookup(defs, p)
                } else {
                    None
                }
            },
        }
    }
}

/// The type of an untyped action-like usage, from the local definition it
/// is named after.
pub fn infer_named_definition_type_ref(usage: &CollectedUsage, local_definitions: &StrMap<String>) -> (r: Option<
    String,
>)
    ensures
        opt_str_view(r) == named_definition_type(usage@, local_definitions@),
{
    proof {
        reveal_strlit("");
    }
    if usage.ty.is_some() || str_eq(usage.declared_name.as_str(), "") {
        proof {
            if usage.declared_name@.len() == 0 {
                assert(usage.declared_name@ =~= ""@);
            }
        }
        return None;
    }
    proof {
        if usage.declared_name@.len() == 0 {
            assert(usage.declared_name@ =~= ""@);
        }
    }
    let c = usage.construct.as_str();
    if !(str_eq(c, "ActionUsage") || str_eq(c, "PerformActionUsage") || str_eq(c, "AcceptActionUsage")) {
        return None;
    }
    match local_definitions.get(usage.declared_name.as_str()) {
        Some(t) => {
            return Some(owned(t.as_str()));
        },
        None => {},
    }
    let chars = chars_of(usage.declared_name.as_str());
    let first = chars[0];
    let mut pascal = uppercase_of(first);
    let mut rest: Vec<char> = Vec::new();
    let mut k: usize = 1;
    while k < chars.len()
        invariant
            1 <= k <= chars@.len(),
            rest@ == chars@.subrange(1, k as int),
        decreases chars@.len() - k,
    {
        rest.push(chars[k]);
        k = k + 1;
    }
    let tail = string_of(&rest);
    pascal.append(tail.as_str());
    proof {
        assert(chars@.subrange(1, chars@.len() as int) =~= usage.declared_name@.drop_first());
        assert(pascal@ =~= capitalized(usage.declared_name@));
    }
    if str_eq(pascal.as_str(), usage.declared_name.as_str()) {
        return None;
    }
    match local_definitions.get(pascal.as_str()) {
        Some(t) => Some(owned(t.as_str())),
        None => None,
    }
}

// ---------------------------------------------------------------- unique matches

/// The qualified names of the usages among the entries of `usages`, other
/// than `excluded`, that carry the modifier `alias`, in key order.
pub open spec fn modifier_alias_matches(
    usages: Seq<(Seq<char>, CollectedUsage)>,
    alias: Seq<char>,
    excluded: Seq<char>,
) -> Seq<Seq<char>>
    decreases usages.len(),
{
    if usages.len() == 0 {
        Seq::empty()
    } else {
        let u = usages.last().1@;
        modifier_alias_matches(usages.drop_last(), alias, excluded) + if u.qualified_name != excluded
            && u.modifiers.contains(alias) {
            seq![u.qualified_name]
        } else {
            Seq::empty()
        }
    }
}

/// The one usage, other than `excluded_qualified_name`, that carries the
/// modifier `alias`.
pub fn unique_feature_modifier_alias_match_excluding(
    alias: &str,
    _local_feature_index: &StrMap<StrMap<String>>,
    local_usage_map: &StrMap<CollectedUsage>,
    excluded_qualified_name: &str,
) -> (r: Option<String>)
    ensures
        opt_str_view(r) == unique(modifier_alias_matches(local_usage_map@, alias@, excluded_qualified_name@)),
{
    let mut matches: Vec<String> = Vec::new();
    let n = local_usage_map.len();
    let mut i: usize = 0;
    while i < n
        invariant
            n == local_usage_map@.len(),
            i <= n,
            strings_view(matches@) == modifier_alias_matches(local_usage_map@.take(i as int), alias@, excluded_qualified_name@),
        decreases n - i,
    {
        let usage = local_usage_map.value_at(i);
        let keep = !str_eq(usage.qualified_name.as_str(), excluded_qualified_name)
            && crate::lowering::usage_semantics::strings_contain(usage.modifiers.as_slice(), alias);
        let ghost before = strings_view(matches@);
        if keep {
            matches.push(owned(usage.qualified_name.as_str()));
        }
        proof {
            let t = local_usage_map@.take(i + 1);
            assert(t.drop_last() =~= local_usage_map@.take(i as int));
            assert(t.last() == local_usage_map@[i as int]);
            if keep {
                assert(strings_view(matches@) =~= before.push(usage.qualified_name@));
            } else {
                assert(strings_view(matches@) =~= before);
            }
        }
        i = i + 1;
    }
    proof {
        assert(local_usage_map@.take(n as int) =~= local_usage_map@);
    }
    if matches.len() == 1 {
        assert(strings_view(matches@)[0] == matches@[0]@);
        Some(owned(matches[0].as_str()))
    } else {
        None
    }
}

/// Whether `q` is a feature whose owner, the part before its last `.`, is
/// one of the module's definitions.
pub open spec fn owned_by_definition(q: Seq<char>, definitions: Seq<(Seq<char>, CollectedDefinition)>) -> bool {
    last_index(q, "."@) matches Some(i) && has_key(definitions, q.take(i))
}

/// The entries of `qs` owned by one of the module's definitions.
pub open spec fn definition_owned(qs: Seq<Seq<char>>, definitions: Seq<(Seq<char>, CollectedDefinition)>) -> Seq<Seq<char>>
    decreases qs.len(),
{
    if qs.len() == 0 {
        Seq::empty()
    } else {
        definition_owned(qs.drop_last(), definitions) + if owned_by_definition(qs.last(), definitions) {
            seq![qs.last()]
        } else {
            Seq::empty()
        }
    }
}

/// The one feature of a definition, other than `excluded_qualified_name`,
/// whose qualified name is, or ends with, `dotted_name`.
pub fn unique_definition_owned_feature_match_excluding(
    dotted_name: &str,
    local_feature_index: &StrMap<StrMap<String>>,
    definition_index: &StrMap<CollectedDefinition>,
    excluded_qualified_name: &str,
) -> (r: Option<String>)
    ensures
        opt_str_view(r) == unique(
            definition_owned(
                matching(index_names(local_feature_index@), dotted_name@, Some(excluded_qualified_name@)),
                definition_index@,
            ),
        ),
{
    let candidates = collect_matches(local_feature_index, dotted_name, Some(excluded_qualified_name));
    let ghost cs = strings_view(candidates@);
    let mut matches: Vec<String> = Vec::new();
    let mut i: usize = 0;
    while i < candidates.len()
        invariant
            cs == strings_view(candidates@),
            i <= candidates@.len(),
            strings_view(matches@) == definition_owned(cs.take(i as int), definition_index@),
        decreases candidates@.len() - i,
    {
        let q = candidates[i].as_str();
        let keep = match rsplit_once_str(q, ".") {
            Some((owner, _)) => definition_index.contains_key(owner.as_str()),
            None => false,
        };
        proof {
            reveal_strlit(".");
        }
        let ghost before = strings_view(matches@);
        if keep {
            matches.push(owned(q));
        }
        proof {
            let t = cs.take(i + 1);
            assert(t.drop_last() =~= cs.take(i as int));
            assert(t.last() == q@);
            if keep {
                assert(strings_view(matches@) =~= before.push(q@));
            } else {
                assert(strings_view(matches@) =~= before);
            }
        }
        i = i + 1;
    }
    proof {
        assert(cs.take(cs.len() as int) =~= cs);
    }
    if matches.len() == 1 {
        assert(strings_view(matches@)[0] == matches@[0]@);
        Some(owned(matches[0].as_str()))
    } else {
        None
    }
}

// ---------------------------------------------------------------- local usages by name

/// A name resolved among the module's usages, following namespace aliases
/// for at most `fuel` steps: its dotted form when a usage has that
/// qualified name.
pub open spec fn local_usage_name(
    name: QualifiedNameView,
    la: Seq<(Seq<char>, QualifiedName)>,
    imp: ImportAliases,
    usages: Seq<(Seq<char>, CollectedUsage)>,
    fuel: nat,
) -> Option<Option<Seq<char>>>
    decreases fuel,
{
    if fuel == 0 {
        None
    } else {
        match expanded_name(name, la, imp.namespace_aliases@) {
            Some(e) => local_usage_name(e, la, imp, usages, (fuel - 1) as nat),
            None => {
                let dotted = join_dot(name.segments);
                Some(
                    if has_key(usages, dotted) {
                        Some(dotted)
                    } else {
                        None
                    },
                )
            },
        }
    }
}

/// Once a name resolves, more fuel resolves it the same way.
pub proof fn lemma_local_usage_name_fuel(
    name: QualifiedNameView,
    la: Seq<(Seq<char>, QualifiedName)>,
    imp: ImportAliases,
    usages: Seq<(Seq<char>, CollectedUsage)>,
    f1: nat,
    f2: nat,
)
    requires
        f1 <= f2,
        local_usage_name(name, la, imp, usages, f1) is Some,
    ensures
        local_usage_name(name, la, imp, usages, f2) == local_usage_name(name, la, imp, usages, f1),
    decreases f1,
{
    match expanded_name(name, la, imp.namespace_aliases@) {
        Some(e) => {
            lemma_local_usage_name_fuel(e, la, imp, usages, (f1 - 1) as nat, (f2 - 1) as nat);
        },
        None => {},
    }
}

fn local_usage_name_fuel(
    name: &QualifiedName,
    local_aliases: &StrMap<QualifiedName>,
    import_aliases: &ImportAliases,
    local_usage_map: &StrMap<CollectedUsage>,
    Ghost(fuel): Ghost<nat>,
) -> (r: Option<String>)
    requires
        local_usage_name(name@, local_aliases@, *import_aliases, local_usage_map@, fuel) is Some,
    ensures
        opt_str_view(r) == local_usage_name(name@, local_aliases@, *import_aliases, local_usage_map@, fuel)->Some_0,
    decreases fuel,
{
    match expand_import_namespace_prefix(name, local_aliases, import_aliases) {
        Some(e) => {
            return local_usage_name_fuel(&e, local_aliases, import_aliases, local_usage_map, Ghost((fuel - 1) as nat));
        },
        None => {},
    }
    let dotted = name.as_dot_string();
    if local_usage_map.contains_key(dotted.as_str()) {
        Some(dotted)
    } else {
        None
    }
}

/// Resolves a name to the qualified name of one of the module's usages,
/// after expanding its namespace alias.
pub fn resolve_local_usage_qualified_name(
    name: &QualifiedName,
    local_aliases: &StrMap<QualifiedName>,
    import_aliases: &ImportAliases,
    local_usage_map: &StrMap<CollectedUsage>,
) -> (r: Option<String>)
    requires
        exists|f: nat| local_usage_name(name@, local_aliases@, *import_aliases, local_usage_map@, f) is Some,
    ensures
        forall|f: nat| #[trigger]
            local_usage_name(name@, local_aliases@, *import_aliases, local_usage_map@, f) matches Some(v) ==> opt_str_view(r)
                == v,
{
    let ghost imp = *import_aliases;
    let ghost f = choose|f: nat| local_usage_name(name@, local_aliases@, imp, local_usage_map@, f) is Some;
    let r = local_usage_name_fuel(name, local_aliases, import_aliases, local_usage_map, Ghost(f));
    proof {
        assert forall|g: nat| #[trigger]
            local_usage_name(name@, local_aliases@, imp, local_usage_map@, g) is Some implies opt_str_view(r)
                == local_usage_name(name@, local_aliases@, imp, local_usage_map@, g)->Some_0 by {
            if g <= f {
                lemma_local_usage_name_fuel(name@, local_aliases@, imp, local_usage_map@, g, f);
            } else {
                lemma_local_usage_name_fuel(name@, local_aliases@, imp, local_usage_map@, f, g);
            }
        }
    }
    r
}

} // verus!
