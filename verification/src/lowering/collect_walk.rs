//! The walk of the collect phase over a module's declarations: packages
//! and their members in source order, then the aliases nested in
//! definitions and usages.
use vstd::prelude::*;

use crate::kerml::ast::{
    AliasDecl, AliasView, Declaration, DeclarationView, ModuleView, PackageDecl, PackageView, ParsedModule,
    QualifiedName, QualifiedNameView, clone_decls, clone_strings, decl_view, decls_view, join_dot, strings_view,
};
use crate::kerml::token::Diagnostic;
use crate::lowering::bundle::{MappingBundle, MappingView, opt_str_view, opt_string_view};
use crate::lowering::collect::{
    CollectedAlias, CollectedAliasView, CollectedDefinition, CollectedDefinitionView, CollectedImport,
    CollectedImportView, CollectedUsage, CollectedUsageView, collect_generic_definition, collect_generic_usage,
    collected_definition, collected_usage, cusages_view, join_dot_strings, lemma_cusages_view_push,
    lemma_decls_view_index, member_qualified_name, qualify_name, qualify_segments,
    usage_qualified_name,
};
use crate::lowering::ir::ResolvedPackage;
use crate::text::{owned, split_on, split_str, str_eq};

verus! {

/// A package as collected, as characters.
pub struct PackageRecord {
    pub owner: Option<Seq<char>>,
    pub qualified_name: Seq<char>,
    pub declared_name: Seq<char>,
    pub docs: Seq<Seq<char>>,
    pub span: crate::kerml::token::SourceSpan,
}

/// The record of a collected package.
pub open spec fn package_record(p: ResolvedPackage) -> PackageRecord {
    PackageRecord {
        owner: opt_string_view(p.owner_package_qualified_name),
        qualified_name: p.qualified_name@,
        declared_name: p.declared_name@,
        docs: strings_view(p.docs@),
        span: p.span,
    }
}

/// What the collect phase gathers, as characters.
#[verifier::ext_equal]
pub struct CollectOut {
    pub packages: Seq<PackageRecord>,
    pub imports: Seq<CollectedImportView>,
    pub definitions: Seq<CollectedDefinitionView>,
    pub usages: Seq<CollectedUsageView>,
    pub aliases: Seq<CollectedAliasView>,
}

/// Nothing gathered.
pub open spec fn no_output() -> CollectOut {
    CollectOut {
        packages: Seq::empty(),
        imports: Seq::empty(),
        definitions: Seq::empty(),
        usages: Seq::empty(),
        aliases: Seq::empty(),
    }
}

/// What `a` gathered followed by what `b` gathered.
pub open spec fn joined_out(a: CollectOut, b: CollectOut) -> CollectOut {
    CollectOut {
        packages: a.packages + b.packages,
        imports: a.imports + b.imports,
        definitions: a.definitions + b.definitions,
        usages: a.usages + b.usages,
        aliases: a.aliases + b.aliases,
    }
}

/// The packages, imports, definitions, usages and aliases of one or more
/// modules, in source order.
#[derive(Debug)]
pub struct CollectedModule {
    pub packages: Vec<ResolvedPackage>,
    pub imports: Vec<CollectedImport>,
    pub definitions: Vec<CollectedDefinition>,
    pub usages: Vec<CollectedUsage>,
    pub aliases: Vec<CollectedAlias>,
}

impl View for CollectedModule {
    type V = CollectOut;

    open spec fn view(&self) -> CollectOut {
        CollectOut {
            packages: self.packages@.map_values(|p: ResolvedPackage| package_record(p)),
            imports: self.imports@.map_values(|i: CollectedImport| i@),
            definitions: self.definitions@.map_values(|d: CollectedDefinition| d@),
            usages: cusages_view(self.usages@),
            aliases: self.aliases@.map_values(|a: CollectedAlias| a@),
        }
    }
}

impl CollectedModule {
    /// Nothing collected yet.
    pub fn new() -> (r: CollectedModule)
        ensures
            r@ == no_output(),
    {
        let r = CollectedModule {
            packages: Vec::new(),
            imports: Vec::new(),
            definitions: Vec::new(),
            usages: Vec::new(),
            aliases: Vec::new(),
        };
        assert(r@.packages =~= Seq::<PackageRecord>::empty());
        assert(r@.imports =~= Seq::<CollectedImportView>::empty());
        assert(r@.definitions =~= Seq::<CollectedDefinitionView>::empty());
        assert(r@.aliases =~= Seq::<CollectedAliasView>::empty());
        r
    }
}

// ---------------------------------------------------------------- aliases

/// An alias declared in the package `segments`: a one-segment target is
/// taken to be in that package.
pub open spec fn alias_in_package(a: AliasView, segments: Seq<Seq<char>>) -> CollectedAliasView {
    CollectedAliasView {
        qualified_name: join_dot(segments.push(a.name)),
        declared_name: a.name,
        target: if a.target.segments.len() == 1 && segments.len() > 0 {
            QualifiedNameView { segments: segments + a.target.segments, span: a.target.span }
        } else {
            a.target
        },
    }
}

/// An alias declared in the element `owner`: a one-segment target is taken
/// to be in that element.
pub open spec fn alias_in_owner(a: AliasView, owner: Seq<char>) -> CollectedAliasView {
    CollectedAliasView {
        qualified_name: member_qualified_name(owner, a.name),
        declared_name: a.name,
        target: if a.target.segments.len() == 1 && owner != "root"@ {
            QualifiedNameView { segments: split_on(owner, "."@) + a.target.segments, span: a.target.span }
        } else {
            a.target
        },
    }
}

/// Collects an alias declared in a package.
pub fn collect_alias(alias: &AliasDecl, owner_package_segments: &[String]) -> (r: CollectedAlias)
    ensures
        r@ == alias_in_package(alias@, strings_view(owner_package_segments@)),
{
    let target = if alias.target.segments.len() == 1 && owner_package_segments.len() > 0 {
        QualifiedName {
            segments: qualify_segments(owner_package_segments, alias.target.segments.as_slice()),
            span: alias.target.span,
        }
    } else {
        alias.target.duplicate()
    };
    CollectedAlias {
        qualified_name: qualify_name(owner_package_segments, alias.name.as_str()),
        declared_name: alias.name.clone(),
        target,
    }
}

/// Collects an alias declared in the element `owner_qualified_name`.
pub fn collect_alias_in_owner(alias: &AliasDecl, owner_qualified_name: &str) -> (r: CollectedAlias)
    ensures
        r@ == alias_in_owner(alias@, owner_qualified_name@),
{
    proof {
        reveal_strlit(".");
    }
    let target = if alias.target.segments.len() == 1 && !str_eq(owner_qualified_name, "root") {
        let mut segments = split_str(owner_qualified_name, ".");
        let ghost pieces = segments@;
        segments.push(alias.target.segments[0].clone());
        proof {
            assert(strings_view(segments@) =~= split_on(owner_qualified_name@, "."@) + strings_view(
                alias.target.segments@,
            )) by {
                assert(strings_view(alias.target.segments@).len() == 1);
                assert(forall|i: int| 0 <= i < pieces.len() ==> #[trigger] segments@[i] == pieces[i]);
            }
        }
        QualifiedName { segments, span: alias.target.span }
    } else {
        alias.target.duplicate()
    };
    CollectedAlias {
        qualified_name: usage_qualified_name(owner_qualified_name, alias.name.as_str()),
        declared_name: alias.name.clone(),
        target,
    }
}

/// The aliases among the first `n` of `decls`, declared in the element
/// `owner`, and those nested in their members.
pub open spec fn member_aliases(decls: Seq<DeclarationView>, owner: Seq<char>, n: int) -> Seq<CollectedAliasView>
    decreases decls, n,
{
    if n <= 0 || n > decls.len() {
        Seq::empty()
    } else {
        member_aliases(decls, owner, n - 1) + match decls[n - 1] {
            DeclarationView::GenericUsage(u) => member_aliases(
                u.body_members,
                member_qualified_name(owner, u.name),
                u.body_members.len() as int,
            ),
            DeclarationView::GenericDefinition(d) => member_aliases(
                d.members,
                member_qualified_name(owner, d.name),
                d.members.len() as int,
            ),
            DeclarationView::Alias(a) => seq![alias_in_owner(a, owner)],
            DeclarationView::Package(p) => member_aliases(
                p.members,
                member_qualified_name(owner, join_dot(p.name.segments)),
                p.members.len() as int,
            ),
            DeclarationView::Import(_) => Seq::empty(),
        }
    }
}

/// The aliases nested in the definitions and usages among the first `n`
/// of `decls`, declared in the package `segments` (named `owner`), and in
/// their packages.
pub open spec fn nested_aliases(
    decls: Seq<DeclarationView>,
    segments: Seq<Seq<char>>,
    owner: Option<Seq<char>>,
    n: int,
) -> Seq<CollectedAliasView>
    decreases decls, n,
{
    if n <= 0 || n > decls.len() {
        Seq::empty()
    } else {
        nested_aliases(decls, segments, owner, n - 1) + match decls[n - 1] {
            DeclarationView::GenericDefinition(d) => member_aliases(
                d.members,
                join_dot(segments.push(d.name)),
                d.members.len() as int,
            ),
            DeclarationView::GenericUsage(u) => member_aliases(
                u.body_members,
                member_qualified_name(
                    match owner {
                        Some(q) => q,
                        None => "root"@,
                    },
                    u.name,
                ),
                u.body_members.len() as int,
            ),
            DeclarationView::Package(p) => nested_aliases(
                p.members,
                segments + p.name.segments,
                Some(join_dot(segments + p.name.segments)),
                p.members.len() as int,
            ),
            _ => Seq::empty(),
        }
    }
}

/// The views of a list of aliases.
pub open spec fn aliases_view(s: Seq<CollectedAlias>) -> Seq<CollectedAliasView> {
    s.map_values(|a: CollectedAlias| a@)
}

/// Collects the aliases declared among `declarations` in the element
/// `owner_qualified_name`, and those nested in their members.
pub fn collect_nested_member_aliases(
    declarations: &Vec<Declaration>,
    owner_qualified_name: &str,
    aliases: &mut Vec<CollectedAlias>,
)
    ensures
        aliases_view(final(aliases)@) == aliases_view(old(aliases)@) + member_aliases(
            decls_view(declarations@),
            owner_qualified_name@,
            declarations@.len() as int,
        ),
    decreases declarations,
{
    let ghost dv = decls_view(declarations@);
    let ghost start = aliases_view(aliases@);
    proof {
        lemma_decls_view_index(declarations@);
    }
    let mut i: usize = 0;
    while i < declarations.len()
        invariant
            i <= declarations@.len(),
            dv == decls_view(declarations@),
            dv.len() == declarations@.len(),
            forall|j: int| 0 <= j < declarations@.len() ==> #[trigger] dv[j] == decl_view(declarations@[j]),
            aliases_view(aliases@) == start + member_aliases(dv, owner_qualified_name@, i as int),
        decreases declarations@.len() - i,
    {
        proof {
            vstd::std_specs::vec::axiom_vec_index_decreases(*declarations, i as int);
        }
        assert(dv[i as int] == decl_view(declarations@[i as int]));
        let ghost before = aliases_view(aliases@);
        match &declarations[i] {
            Declaration::GenericUsage(u) => {
                proof {
                    lemma_decls_view_index(u.body_members@);
                }
                let q = usage_qualified_name(owner_qualified_name, u.name.as_str());
                collect_nested_member_aliases(&u.body_members, q.as_str(), aliases);
            },
            Declaration::GenericDefinition(d) => {
                proof {
                    lemma_decls_view_index(d.members@);
                }
                let q = usage_qualified_name(owner_qualified_name, d.name.as_str());
                collect_nested_member_aliases(&d.members, q.as_str(), aliases);
            },
            Declaration::Alias(a) => {
                let c = collect_alias_in_owner(a, owner_qualified_name);
                aliases.push(c);
                proof {
                    assert(aliases_view(aliases@) =~= before.push(c@));
                }
            },
            Declaration::Package(p) => {
                proof {
                    lemma_decls_view_index(p.members@);
                }
                let name = p.name.as_dot_string();
                let q = usage_qualified_name(owner_qualified_name, name.as_str());
                collect_nested_member_aliases(&p.members, q.as_str(), aliases);
            },
            Declaration::Import(_) => {},
        }
        proof {
            assert(aliases_view(aliases@) =~= start + member_aliases(dv, owner_qualified_name@, i + 1));
        }
        i = i + 1;
    }
}

/// Collects the aliases nested in the definitions and usages among
/// `declarations`, declared in the package `owner_package_segments`, and in
/// their packages.
pub fn collect_nested_aliases(
    declarations: &Vec<Declaration>,
    owner_package_segments: &[String],
    owner_qualified_name: Option<&str>,
    aliases: &mut Vec<CollectedAlias>,
)
    ensures
        aliases_view(final(aliases)@) == aliases_view(old(aliases)@) + nested_aliases(
            decls_view(declarations@),
            strings_view(owner_package_segments@),
            opt_str_view(owner_qualified_name),
            declarations@.len() as int,
        ),
    decreases declarations,
{
    let ghost dv = decls_view(declarations@);
    let ghost segs = strings_view(owner_package_segments@);
    let ghost start = aliases_view(aliases@);
    proof {
        lemma_decls_view_index(declarations@);
    }
    let mut i: usize = 0;
    while i < declarations.len()
        invariant
            i <= declarations@.len(),
            dv == decls_view(declarations@),
            segs == strings_view(owner_package_segments@),
            dv.len() == declarations@.len(),
            forall|j: int| 0 <= j < declarations@.len() ==> #[trigger] dv[j] == decl_view(declarations@[j]),
            aliases_view(aliases@) == start + nested_aliases(dv, segs, opt_str_view(owner_qualified_name), i as int),
        decreases declarations@.len() - i,
    {
        proof {
            vstd::std_specs::vec::axiom_vec_index_decreases(*declarations, i as int);
        }
        assert(dv[i as int] == decl_view(declarations@[i as int]));
        match &declarations[i] {
            Declaration::GenericDefinition(d) => {
                proof {
                    lemma_decls_view_index(d.members@);
                }
                let q = qualify_name(owner_package_segments, d.name.as_str());
                collect_nested_member_aliases(&d.members, q.as_str(), aliases);
            },
            Declaration::GenericUsage(u) => {
                proof {
                    lemma_decls_view_index(u.body_members@);
                }
                let owner = match owner_qualified_name {
                    Some(q) => q,
                    None => "root",
                };
                let q = usage_qualified_name(owner, u.name.as_str());
                collect_nested_member_aliases(&u.body_members, q.as_str(), aliases);
            },
            Declaration::Package(p) => {
                proof {
                    lemma_decls_view_index(p.members@);
                }
                let package_segments = qualify_segments(owner_package_segments, p.name.segments.as_slice());
                let q = join_dot_strings(package_segments.as_slice());
                collect_nested_aliases(&p.members, package_segments.as_slice(), Some(q.as_str()), aliases);
            },
            _ => {},
        }
        proof {
            assert(aliases_view(aliases@) =~= start + nested_aliases(
                dv,
                segs,
                opt_str_view(owner_qualified_name),
                i + 1,
            ));
        }
        i = i + 1;
    }
}


// ---------------------------------------------------------------- imports

/// The imports among the first `n` of `decls`, owned by the element
/// `owner`, and those nested in their members.
pub open spec fn member_imports(decls: Seq<DeclarationView>, owner: Seq<char>, n: int) -> Seq<CollectedImportView>
    decreases decls, n,
{
    if n <= 0 || n > decls.len() {
        Seq::empty()
    } else {
        member_imports(decls, owner, n - 1) + match decls[n - 1] {
            DeclarationView::GenericUsage(u) => member_imports(
                u.body_members,
                member_qualified_name(owner, u.name),
                u.body_members.len() as int,
            ),
            DeclarationView::GenericDefinition(d) => member_imports(
                d.members,
                member_qualified_name(owner, d.name),
                d.members.len() as int,
            ),
            DeclarationView::Import(i) => seq![CollectedImportView { owner: Some(owner), decl: i }],
            DeclarationView::Package(p) => member_imports(
                p.members,
                member_qualified_name(owner, join_dot(p.name.segments)),
                p.members.len() as int,
            ),
            DeclarationView::Alias(_) => Seq::empty(),
        }
    }
}

/// The views of a list of imports.
pub open spec fn cimports_view(s: Seq<CollectedImport>) -> Seq<CollectedImportView> {
    s.map_values(|i: CollectedImport| i@)
}

/// Collects the imports among `declarations`, owned by the element
/// `owner_qualified_name`, and those nested in their members.
pub fn collect_nested_member_imports(
    declarations: &Vec<Declaration>,
    owner_qualified_name: &str,
    imports: &mut Vec<CollectedImport>,
)
    ensures
        cimports_view(final(imports)@) == cimports_view(old(imports)@) + member_imports(
            decls_view(declarations@),
            owner_qualified_name@,
            declarations@.len() as int,
        ),
    decreases declarations,
{
    let ghost dv = decls_view(declarations@);
    let ghost start = cimports_view(imports@);
    proof {
        lemma_decls_view_index(declarations@);
    }
    let mut i: usize = 0;
    while i < declarations.len()
        invariant
            i <= declarations@.len(),
            dv == decls_view(declarations@),
            dv.len() == declarations@.len(),
            forall|j: int| 0 <= j < declarations@.len() ==> #[trigger] dv[j] == decl_view(declarations@[j]),
            cimports_view(imports@) == start + member_imports(dv, owner_qualified_name@, i as int),
        decreases declarations@.len() - i,
    {
        proof {
            vstd::std_specs::vec::axiom_vec_index_decreases(*declarations, i as int);
        }
        assert(dv[i as int] == decl_view(declarations@[i as int]));
        let ghost before = cimports_view(imports@);
        match &declarations[i] {
            Declaration::GenericUsage(u) => {
                proof {
                    lemma_decls_view_index(u.body_members@);
                }
                let q = usage_qualified_name(owner_qualified_name, u.name.as_str());
                collect_nested_member_imports(&u.body_members, q.as_str(), imports);
            },
            Declaration::GenericDefinition(d) => {
                proof {
                    lemma_decls_view_index(d.members@);
                }
                let q = usage_qualified_name(owner_qualified_name, d.name.as_str());
                collect_nested_member_imports(&d.members, q.as_str(), imports);
            },
            Declaration::Import(import_decl) => {
                let c = CollectedImport {
                    owner_package_qualified_name: Some(owned(owner_qualified_name)),
                    decl: import_decl.duplicate(),
                };
                imports.push(c);
                proof {
                    assert(cimports_view(imports@) =~= before.push(c@));
                }
            },
            Declaration::Package(p) => {
                proof {
                    lemma_decls_view_index(p.members@);
                }
                let name = p.name.as_dot_string();
                let q = usage_qualified_name(owner_qualified_name, name.as_str());
                collect_nested_member_imports(&p.members, q.as_str(), imports);
            },
            Declaration::Alias(_) => {},
        }
        proof {
            assert(cimports_view(imports@) =~= start + member_imports(dv, owner_qualified_name@, i + 1));
        }
        i = i + 1;
    }
}

// ---------------------------------------------------------------- definitions

/// The definitions among the first `n` of `decls`, declared in the package
/// `segments`, each followed by the definitions nested in it.
pub open spec fn owned_definitions(decls: Seq<DeclarationView>, segments: Seq<Seq<char>>, m: MappingView, n: int) -> Result<
    Seq<CollectedDefinitionView>,
    Seq<char>,
>
    decreases decls, n,
{
    if n <= 0 || n > decls.len() {
        Ok(Seq::empty())
    } else {
        match owned_definitions(decls, segments, m, n - 1) {
            Err(e) => Err(e),
            Ok(prev) => match decls[n - 1] {
                DeclarationView::GenericDefinition(d) => match collected_definition(d, segments, m) {
                    Err(e) => Err(e),
                    Ok(cd) => match owned_definitions(d.members, segments.push(d.name), m, d.members.len() as int) {
                        Err(e) => Err(e),
                        Ok(nested) => Ok(prev.push(cd) + nested),
                    },
                },
                _ => Ok(prev),
            },
        }
    }
}

/// The views of a list of definitions.
pub open spec fn cdefinitions_view(s: Seq<CollectedDefinition>) -> Seq<CollectedDefinitionView> {
    s.map_values(|d: CollectedDefinition| d@)
}

proof fn lemma_owned_definitions_error_stays(
    decls: Seq<DeclarationView>,
    segments: Seq<Seq<char>>,
    m: MappingView,
    k: int,
    n: int,
)
    requires
        0 < k <= n <= decls.len(),
        owned_definitions(decls, segments, m, k) is Err,
    ensures
        owned_definitions(decls, segments, m, n) == owned_definitions(decls, segments, m, k),
    decreases n - k,
{
    if k < n {
        lemma_owned_definitions_error_stays(decls, segments, m, k, n - 1);
    }
}

/// Collects the definitions among `declarations`, declared in the package
/// `owner_package_segments`, each followed by those nested in it.
pub fn collect_nested_owned_definitions(
    declarations: &Vec<Declaration>,
    owner_package_segments: &[String],
    definitions: &mut Vec<CollectedDefinition>,
    mappings: &MappingBundle,
) -> (r: Result<(), Diagnostic>)
    ensures
        match owned_definitions(
            decls_view(declarations@),
            strings_view(owner_package_segments@),
            mappings@,
            declarations@.len() as int,
        ) {
            Ok(ds) => r is Ok && cdefinitions_view(final(definitions)@) == cdefinitions_view(old(definitions)@) + ds,
            Err(e) => r matches Err(d) && d.message@ == e,
        },
    decreases declarations,
{
    let ghost dv = decls_view(declarations@);
    let ghost segs = strings_view(owner_package_segments@);
    let ghost start = cdefinitions_view(definitions@);
    proof {
        lemma_decls_view_index(declarations@);
    }
    let mut i: usize = 0;
    while i < declarations.len()
        invariant
            i <= declarations@.len(),
            dv == decls_view(declarations@),
            segs == strings_view(owner_package_segments@),
            dv.len() == declarations@.len(),
            forall|j: int| 0 <= j < declarations@.len() ==> #[trigger] dv[j] == decl_view(declarations@[j]),
            owned_definitions(dv, segs, mappings@, i as int) matches Ok(ds) && cdefinitions_view(definitions@)
                == start + ds,
        decreases declarations@.len() - i,
    {
        proof {
            vstd::std_specs::vec::axiom_vec_index_decreases(*declarations, i as int);
        }
        assert(dv[i as int] == decl_view(declarations@[i as int]));
        let ghost prev = owned_definitions(dv, segs, mappings@, i as int)->Ok_0;
        match &declarations[i] {
            Declaration::GenericDefinition(d) => {
                proof {
                    lemma_decls_view_index(d.members@);
                }
                let cd = match collect_generic_definition(d, owner_package_segments, mappings) {
                    Ok(cd) => cd,
                    Err(e) => {
                        proof {
                            lemma_owned_definitions_error_stays(dv, segs, mappings@, i + 1, declarations@.len() as int);
                        }
                        return Err(e);
                    },
                };
                let ghost before = definitions@;
                definitions.push(cd);
                proof {
                    assert(cdefinitions_view(definitions@) =~= cdefinitions_view(before).push(cd@));
                }
                let mut name_segment: Vec<String> = Vec::new();
                name_segment.push(d.name.clone());
                let nested_segments = qualify_segments(owner_package_segments, name_segment.as_slice());
                proof {
                    assert(strings_view(name_segment@) =~= seq![d.name@]);
                    assert(strings_view(nested_segments@) =~= segs.push(d.name@));
                }
                let ghost mid = cdefinitions_view(definitions@);
                match collect_nested_owned_definitions(&d.members, nested_segments.as_slice(), definitions, mappings) {
                    Ok(()) => {},
                    Err(e) => {
                        proof {
                            lemma_owned_definitions_error_stays(dv, segs, mappings@, i + 1, declarations@.len() as int);
                        }
                        return Err(e);
                    },
                }
                proof {
                    let nested = owned_definitions(d@.members, segs.push(d.name@), mappings@, d@.members.len() as int)->Ok_0;
                    assert(cdefinitions_view(definitions@) =~= start + (prev.push(cd@) + nested));
                }
            },
            _ => {},
        }
        i = i + 1;
    }
    proof {
        assert(owned_definitions(dv, segs, mappings@, declarations@.len() as int) matches Ok(ds) && cdefinitions_view(
            definitions@,
        ) == start + ds);
    }
    Ok(())
}


// ---------------------------------------------------------------- packages and declarations

/// What the first `n` of `decls` contribute, declared in the package
/// `segments` (named `owner`; the root scope when there is none), or the
/// first error.
pub open spec fn decls_out(
    decls: Seq<DeclarationView>,
    segments: Seq<Seq<char>>,
    owner: Option<Seq<char>>,
    m: MappingView,
    n: int,
) -> Result<CollectOut, Seq<char>>
    decreases decls, n,
{
    if n <= 0 || n > decls.len() {
        Ok(no_output())
    } else {
        match decls_out(decls, segments, owner, m, n - 1) {
            Err(e) => Err(e),
            Ok(prev) => match item_out(decls[n - 1], segments, owner, m) {
                Err(e) => Err(e),
                Ok(o) => Ok(joined_out(prev, o)),
            },
        }
    }
}

/// What one declaration contributes: a definition with the definitions,
/// imports and packages nested in it; a usage with the imports nested in
/// it; a package with its members; an import; an alias.
pub open spec fn item_out(
    decl: DeclarationView,
    segments: Seq<Seq<char>>,
    owner: Option<Seq<char>>,
    m: MappingView,
) -> Result<CollectOut, Seq<char>>
    decreases decl, 0int,
{
    match decl {
        DeclarationView::GenericDefinition(d) => {
            let nested_segments = segments.push(d.name);
            match collected_definition(d, segments, m) {
                Err(e) => Err(e),
                Ok(cd) => match owned_definitions(d.members, nested_segments, m, d.members.len() as int) {
                    Err(e) => Err(e),
                    Ok(nested) => match owned_packages(d.members, nested_segments, m, d.members.len() as int) {
                        Err(e) => Err(e),
                        Ok(o) => Ok(
                            CollectOut {
                                packages: o.packages,
                                imports: member_imports(d.members, join_dot(nested_segments), d.members.len() as int)
                                    + o.imports,
                                definitions: seq![cd] + nested + o.definitions,
                                usages: o.usages,
                                aliases: o.aliases,
                            },
                        ),
                    },
                },
            }
        },
        DeclarationView::GenericUsage(u) => {
            let owner_name = match owner {
                Some(q) => q,
                None => "root"@,
            };
            match collected_usage(u, owner_name, "Package"@, m) {
                Err(e) => Err(e),
                Ok(c) => Ok(
                    CollectOut {
                        packages: Seq::empty(),
                        imports: member_imports(
                            u.body_members,
                            member_qualified_name(owner_name, u.name),
                            u.body_members.len() as int,
                        ),
                        definitions: Seq::empty(),
                        usages: seq![c],
                        aliases: Seq::empty(),
                    },
                ),
            }
        },
        DeclarationView::Package(p) => package_out(p, segments, m),
        DeclarationView::Import(i) => Ok(
            CollectOut {
                packages: Seq::empty(),
                imports: seq![CollectedImportView { owner, decl: i }],
                definitions: Seq::empty(),
                usages: Seq::empty(),
                aliases: Seq::empty(),
            },
        ),
        DeclarationView::Alias(a) => Ok(
            CollectOut {
                packages: Seq::empty(),
                imports: Seq::empty(),
                definitions: Seq::empty(),
                usages: Seq::empty(),
                aliases: seq![alias_in_package(a, segments)],
            },
        ),
    }
}

/// The record of package `p` declared in the package `segments`.
pub open spec fn package_entry(p: PackageView, segments: Seq<Seq<char>>) -> PackageRecord {
    let qualified_name = join_dot(segments + p.name.segments);
    PackageRecord {
        owner: if segments.len() > 0 {
            Some(join_dot(segments))
        } else {
            None
        },
        qualified_name,
        declared_name: if p.name.segments.len() > 0 {
            p.name.segments.last()
        } else {
            qualified_name
        },
        docs: p.docs,
        span: p.span,
    }
}

/// What package `p`, declared in the package `segments`, contributes: its
/// record, then what its members contribute.
pub open spec fn package_out(p: PackageView, segments: Seq<Seq<char>>, m: MappingView) -> Result<CollectOut, Seq<char>>
    decreases p, 0int,
{
    let package_segments = segments + p.name.segments;
    match decls_out(p.members, package_segments, Some(join_dot(package_segments)), m, p.members.len() as int) {
        Err(e) => Err(e),
        Ok(o) => Ok(
            CollectOut {
                packages: seq![package_entry(p, segments)] + o.packages,
                imports: o.imports,
                definitions: o.definitions,
                usages: o.usages,
                aliases: o.aliases,
            },
        ),
    }
}

/// What the packages among the first `n` of `decls` contribute.
pub open spec fn owned_packages(decls: Seq<DeclarationView>, segments: Seq<Seq<char>>, m: MappingView, n: int) -> Result<
    CollectOut,
    Seq<char>,
>
    decreases decls, n,
{
    if n <= 0 || n > decls.len() {
        Ok(no_output())
    } else {
        match owned_packages(decls, segments, m, n - 1) {
            Err(e) => Err(e),
            Ok(prev) => match decls[n - 1] {
                DeclarationView::Package(p) => match package_out(p, segments, m) {
                    Err(e) => Err(e),
                    Ok(o) => Ok(joined_out(prev, o)),
                },
                _ => Ok(prev),
            },
        }
    }
}

proof fn lemma_decls_out_error_stays(
    decls: Seq<DeclarationView>,
    segments: Seq<Seq<char>>,
    owner: Option<Seq<char>>,
    m: MappingView,
    k: int,
    n: int,
)
    requires
        0 < k <= n <= decls.len(),
        decls_out(decls, segments, owner, m, k) is Err,
    ensures
        decls_out(decls, segments, owner, m, n) == decls_out(decls, segments, owner, m, k),
    decreases n - k,
{
    if k < n {
        lemma_decls_out_error_stays(decls, segments, owner, m, k, n - 1);
    }
}

proof fn lemma_owned_packages_error_stays(
    decls: Seq<DeclarationView>,
    segments: Seq<Seq<char>>,
    m: MappingView,
    k: int,
    n: int,
)
    requires
        0 < k <= n <= decls.len(),
        owned_packages(decls, segments, m, k) is Err,
    ensures
        owned_packages(decls, segments, m, n) == owned_packages(decls, segments, m, k),
    decreases n - k,
{
    if k < n {
        lemma_owned_packages_error_stays(decls, segments, m, k, n - 1);
    }
}

/// Pushing a package appends its record.
proof fn lemma_push_package(out: CollectedModule, p: ResolvedPackage)
    ensures
        out.packages@.push(p).map_values(|q: ResolvedPackage| package_record(q)) == out@.packages.push(package_record(p)),
{
    assert(out.packages@.push(p).map_values(|q: ResolvedPackage| package_record(q)) =~= out@.packages.push(
        package_record(p),
    ));
}

/// Collects package `package`, declared in the package
/// `owner_package_segments`, and its members.
pub fn collect_package(
    package: &PackageDecl,
    owner_package_segments: &[String],
    out: &mut CollectedModule,
    mappings: &MappingBundle,
) -> (r: Result<(), Diagnostic>)
    ensures
        match package_out(package@, strings_view(owner_package_segments@), mappings@) {
            Ok(o) => r is Ok && final(out)@ == joined_out(old(out)@, o),
            Err(e) => r matches Err(d) && d.message@ == e,
        },
    decreases package,
{
    proof {
        lemma_decls_view_index(package.members@);
    }
    let ghost segs = strings_view(owner_package_segments@);
    let package_segments = qualify_segments(owner_package_segments, package.name.segments.as_slice());
    let qualified_name = join_dot_strings(package_segments.as_slice());
    let owner = if owner_package_segments.len() > 0 {
        Some(join_dot_strings(owner_package_segments))
    } else {
        None
    };
    let declared_name = if package.name.segments.len() > 0 {
        package.name.segments[package.name.segments.len() - 1].clone()
    } else {
        qualified_name.clone()
    };
    let record = ResolvedPackage {
        owner_package_qualified_name: owner,
        qualified_name: qualified_name.clone(),
        declared_name,
        docs: clone_strings(&package.docs),
        span: package.span,
    };
    proof {
        assert(package_record(record) == package_entry(package@, segs));
    }
    let ghost start = out@;
    proof {
        lemma_push_package(*out, record);
    }
    out.packages.push(record);
    let ghost pushed = out@;
    match collect_declarations(&package.members, package_segments.as_slice(), Some(qualified_name.as_str()), out, mappings) {
        Ok(()) => {},
        Err(d) => {
            return Err(d);
        },
    }
    proof {
        let o = decls_out(
            package@.members,
            segs + package@.name.segments,
            Some(join_dot(segs + package@.name.segments)),
            mappings@,
            package@.members.len() as int,
        )->Ok_0;
        assert(out@ =~= joined_out(
            start,
            CollectOut {
                packages: seq![package_entry(package@, segs)] + o.packages,
                imports: o.imports,
                definitions: o.definitions,
                usages: o.usages,
                aliases: o.aliases,
            },
        ));
    }
    Ok(())
}

/// Collects the packages among `declarations`, declared in the package
/// `owner_package_segments`, and their members.
pub fn collect_nested_owned_packages(
    declarations: &Vec<Declaration>,
    owner_package_segments: &[String],
    out: &mut CollectedModule,
    mappings: &MappingBundle,
) -> (r: Result<(), Diagnostic>)
    ensures
        match owned_packages(
            decls_view(declarations@),
            strings_view(owner_package_segments@),
            mappings@,
            declarations@.len() as int,
        ) {
            Ok(o) => r is Ok && final(out)@ == joined_out(old(out)@, o),
            Err(e) => r matches Err(d) && d.message@ == e,
        },
    decreases declarations,
{
    let ghost dv = decls_view(declarations@);
    let ghost segs = strings_view(owner_package_segments@);
    let ghost start = out@;
    proof {
        lemma_decls_view_index(declarations@);
    }
    let mut i: usize = 0;
    while i < declarations.len()
        invariant
            i <= declarations@.len(),
            dv == decls_view(declarations@),
            segs == strings_view(owner_package_segments@),
            dv.len() == declarations@.len(),
            forall|j: int| 0 <= j < declarations@.len() ==> #[trigger] dv[j] == decl_view(declarations@[j]),
            owned_packages(dv, segs, mappings@, i as int) matches Ok(o) && out@ == joined_out(start, o),
        decreases declarations@.len() - i,
    {
        proof {
            vstd::std_specs::vec::axiom_vec_index_decreases(*declarations, i as int);
        }
        assert(dv[i as int] == decl_view(declarations@[i as int]));
        let ghost prev = owned_packages(dv, segs, mappings@, i as int)->Ok_0;
        match &declarations[i] {
            Declaration::Package(p) => {
                match collect_package(p, owner_package_segments, out, mappings) {
                    Ok(()) => {},
                    Err(d) => {
                        proof {
                            lemma_owned_packages_error_stays(dv, segs, mappings@, i + 1, declarations@.len() as int);
                        }
                        return Err(d);
                    },
                }
                proof {
                    let o = package_out(p@, segs, mappings@)->Ok_0;
                    assert(out@ =~= joined_out(start, joined_out(prev, o)));
                }
            },
            _ => {},
        }
        i = i + 1;
    }
    Ok(())
}

/// Collects `declarations`, declared in the package
/// `owner_package_segments` (named `owner_package_qualified_name`; the
/// root scope when there is none).
pub fn collect_declarations(
    declarations: &Vec<Declaration>,
    owner_package_segments: &[String],
    owner_package_qualified_name: Option<&str>,
    out: &mut CollectedModule,
    mappings: &MappingBundle,
) -> (r: Result<(), Diagnostic>)
    ensures
        match decls_out(
            decls_view(declarations@),
            strings_view(owner_package_segments@),
            opt_str_view(owner_package_qualified_name),
            mappings@,
            declarations@.len() as int,
        ) {
            Ok(o) => r is Ok && final(out)@ == joined_out(old(out)@, o),
            Err(e) => r matches Err(d) && d.message@ == e,
        },
    decreases declarations,
{
    let ghost dv = decls_view(declarations@);
    let ghost segs = strings_view(owner_package_segments@);
    let ghost oq = opt_str_view(owner_package_qualified_name);
    let ghost start = out@;
    proof {
        lemma_decls_view_index(declarations@);
    }
    let mut i: usize = 0;
    while i < declarations.len()
        invariant
            i <= declarations@.len(),
            dv == decls_view(declarations@),
            segs == strings_view(owner_package_segments@),
            oq == opt_str_view(owner_package_qualified_name),
            dv.len() == declarations@.len(),
            forall|j: int| 0 <= j < declarations@.len() ==> #[trigger] dv[j] == decl_view(declarations@[j]),
            decls_out(dv, segs, oq, mappings@, i as int) matches Ok(o) && out@ == joined_out(start, o),
        decreases declarations@.len() - i,
    {
        proof {
            vstd::std_specs::vec::axiom_vec_index_decreases(*declarations, i as int);
        }
        assert(dv[i as int] == decl_view(declarations@[i as int]));
        let ghost prev = decls_out(dv, segs, oq, mappings@, i as int)->Ok_0;
        let ghost before = out@;
        match collect_item(&declarations[i], owner_package_segments, owner_package_qualified_name, out, mappings) {
            Ok(()) => {},
            Err(d) => {
                proof {
                    lemma_decls_out_error_stays(dv, segs, oq, mappings@, i + 1, declarations@.len() as int);
                }
                return Err(d);
            },
        }
        proof {
            let o = item_out(dv[i as int], segs, oq, mappings@)->Ok_0;
            assert(out@ =~= joined_out(start, joined_out(prev, o)));
        }
        i = i + 1;
    }
    Ok(())
}

/// Collects one declaration of a package.
fn collect_item(
    declaration: &Declaration,
    owner_package_segments: &[String],
    owner_package_qualified_name: Option<&str>,
    out: &mut CollectedModule,
    mappings: &MappingBundle,
) -> (r: Result<(), Diagnostic>)
    ensures
        match item_out(
            declaration@,
            strings_view(owner_package_segments@),
            opt_str_view(owner_package_qualified_name),
            mappings@,
        ) {
            Ok(o) => r is Ok && final(out)@ == joined_out(old(out)@, o),
            Err(e) => r matches Err(d) && d.message@ == e,
        },
    decreases declaration,
{
    let ghost segs = strings_view(owner_package_segments@);
    let ghost start = out@;
    match declaration {
        Declaration::GenericDefinition(definition) => {
            proof {
                lemma_decls_view_index(definition.members@);
            }
            let cd = match collect_generic_definition(definition, owner_package_segments, mappings) {
                Ok(cd) => cd,
                Err(d) => {
                    return Err(d);
                },
            };
            let ghost cdv = cd@;
            out.definitions.push(cd);
            let mut name_segment: Vec<String> = Vec::new();
            name_segment.push(definition.name.clone());
            let nested_segments = qualify_segments(owner_package_segments, name_segment.as_slice());
            proof {
                assert(strings_view(name_segment@) =~= seq![definition.name@]);
                assert(strings_view(nested_segments@) =~= segs.push(definition.name@));
            }
            match collect_nested_owned_definitions(&definition.members, nested_segments.as_slice(), &mut out.definitions, mappings) {
                Ok(()) => {},
                Err(d) => {
                    return Err(d);
                },
            }
            let owner_name = join_dot_strings(nested_segments.as_slice());
            collect_nested_member_imports(&definition.members, owner_name.as_str(), &mut out.imports);
            let ghost mid = out@;
            match collect_nested_owned_packages(&definition.members, nested_segments.as_slice(), out, mappings) {
                Ok(()) => {},
                Err(d) => {
                    return Err(d);
                },
            }
            proof {
                let ds = definition@.members;
                let ns = segs.push(definition@.name);
                let nested = owned_definitions(ds, ns, mappings@, ds.len() as int)->Ok_0;
                let o = owned_packages(ds, ns, mappings@, ds.len() as int)->Ok_0;
                assert(out@ =~= joined_out(
                    start,
                    CollectOut {
                        packages: o.packages,
                        imports: member_imports(ds, join_dot(ns), ds.len() as int) + o.imports,
                        definitions: seq![cdv] + nested + o.definitions,
                        usages: o.usages,
                        aliases: o.aliases,
                    },
                ));
            }
            Ok(())
        },
        Declaration::GenericUsage(usage) => {
            proof {
                lemma_decls_view_index(usage.body_members@);
            }
            let owner = match owner_package_qualified_name {
                Some(q) => q,
                None => "root",
            };
            let c = match collect_generic_usage(usage, owner, "Package", mappings) {
                Ok(c) => c,
                Err(d) => {
                    return Err(d);
                },
            };
            let ghost cv = c@;
            let ghost before_usages = out.usages@;
            out.usages.push(c);
            proof {
                lemma_cusages_view_push(before_usages, c);
            }
            let qualified_name = usage_qualified_name(owner, usage.name.as_str());
            collect_nested_member_imports(&usage.body_members, qualified_name.as_str(), &mut out.imports);
            proof {
                assert(out@ =~= joined_out(
                    start,
                    CollectOut {
                        packages: Seq::empty(),
                        imports: member_imports(
                            usage@.body_members,
                            member_qualified_name(owner@, usage@.name),
                            usage@.body_members.len() as int,
                        ),
                        definitions: Seq::empty(),
                        usages: seq![cv],
                        aliases: Seq::empty(),
                    },
                ));
            }
            Ok(())
        },
        Declaration::Package(package) => collect_package(package, owner_package_segments, out, mappings),
        Declaration::Import(import_decl) => {
            let owner = match owner_package_qualified_name {
                Some(q) => Some(owned(q)),
                None => None,
            };
            let c = CollectedImport { owner_package_qualified_name: owner, decl: import_decl.duplicate() };
            let ghost cv = c@;
            out.imports.push(c);
            proof {
                assert(out@ =~= joined_out(
                    start,
                    CollectOut {
                        packages: Seq::empty(),
                        imports: seq![cv],
                        definitions: Seq::empty(),
                        usages: Seq::empty(),
                        aliases: Seq::empty(),
                    },
                ));
            }
            Ok(())
        },
        Declaration::Alias(alias) => {
            let c = collect_alias(alias, owner_package_segments);
            let ghost cv = c@;
            out.aliases.push(c);
            proof {
                assert(out@ =~= joined_out(
                    start,
                    CollectOut {
                        packages: Seq::empty(),
                        imports: Seq::empty(),
                        definitions: Seq::empty(),
                        usages: Seq::empty(),
                        aliases: seq![cv],
                    },
                ));
            }
            Ok(())
        },
    }
}


// ---------------------------------------------------------------- modules

/// The declarations a module is collected from: its members, else its
/// package.
pub open spec fn root_declarations(module: ModuleView) -> Seq<DeclarationView> {
    if module.members.len() > 0 {
        module.members
    } else {
        match module.package {
            Some(p) => seq![DeclarationView::Package(p)],
            None => Seq::empty(),
        }
    }
}

/// What the collect phase gathers from a module: what its declarations
/// contribute at the root scope, then the aliases nested in them.
pub open spec fn collected_module(module: ModuleView, m: MappingView) -> Result<CollectOut, Seq<char>> {
    let root = root_declarations(module);
    match decls_out(root, Seq::empty(), None, m, root.len() as int) {
        Err(e) => Err(e),
        Ok(o) => Ok(
            CollectOut {
                packages: o.packages,
                imports: o.imports,
                definitions: o.definitions,
                usages: o.usages,
                aliases: o.aliases + nested_aliases(root, Seq::empty(), None, root.len() as int),
            },
        ),
    }
}

/// Collects the packages, imports, definitions, usages and aliases of a
/// module.
pub fn collect_module(module: &ParsedModule, mappings: &MappingBundle) -> (r: Result<CollectedModule, Diagnostic>)
    ensures
        match collected_module(module@, mappings@) {
            Ok(o) => r matches Ok(c) && c@ == o,
            Err(e) => r matches Err(d) && d.message@ == e,
        },
{
    proof {
        lemma_decls_view_index(module.members@);
    }
    let root_members: Vec<Declaration> = if module.members.len() > 0 {
        clone_decls(&module.members)
    } else {
        match &module.package {
            Some(package) => {
                let mut v: Vec<Declaration> = Vec::new();
                v.push(Declaration::Package(package.duplicate()));
                proof {
                    lemma_decls_view_index(v@);
                    assert(decls_view(v@) =~= root_declarations(module@));
                }
                v
            },
            None => {
                let v: Vec<Declaration> = Vec::new();
                proof {
                    lemma_decls_view_index(v@);
                    assert(decls_view(v@) =~= root_declarations(module@));
                }
                v
            },
        }
    };
    proof {
        lemma_decls_view_index(root_members@);
        assert(decls_view(root_members@) == root_declarations(module@));
    }
    let root_segments: Vec<String> = Vec::new();
    proof {
        assert(strings_view(root_segments@) =~= Seq::<Seq<char>>::empty());
    }
    let mut out = CollectedModule::new();
    match collect_declarations(&root_members, root_segments.as_slice(), None, &mut out, mappings) {
        Ok(()) => {},
        Err(d) => {
            return Err(d);
        },
    }
    let ghost collected = out@;
    collect_nested_aliases(&root_members, root_segments.as_slice(), None, &mut out.aliases);
    proof {
        let root = root_declarations(module@);
        let o = decls_out(root, Seq::empty(), None, mappings@, root.len() as int)->Ok_0;
        assert(collected =~= o);
        assert(out@ =~= CollectOut {
            packages: o.packages,
            imports: o.imports,
            definitions: o.definitions,
            usages: o.usages,
            aliases: o.aliases + nested_aliases(root, Seq::empty(), None, root.len() as int),
        });
    }
    Ok(out)
}

/// What the collect phase gathers from the first `n` modules, in order,
/// or the first error.
pub open spec fn modules_out(modules: Seq<ParsedModule>, m: MappingView, n: int) -> Result<CollectOut, Seq<char>>
    decreases n,
{
    if n <= 0 {
        Ok(no_output())
    } else {
        match modules_out(modules, m, n - 1) {
            Err(e) => Err(e),
            Ok(prev) => match collected_module(modules[n - 1]@, m) {
                Err(e) => Err(e),
                Ok(o) => Ok(joined_out(prev, o)),
            },
        }
    }
}

proof fn lemma_modules_out_error_stays(modules: Seq<ParsedModule>, m: MappingView, k: int, n: int)
    requires
        0 < k <= n,
        modules_out(modules, m, k) is Err,
    ensures
        modules_out(modules, m, n) == modules_out(modules, m, k),
    decreases n - k,
{
    if k < n {
        lemma_modules_out_error_stays(modules, m, k, n - 1);
    }
}

/// The view of two lists of usages one after the other.
proof fn lemma_cusages_view_concat(a: Seq<CollectedUsage>, b: Seq<CollectedUsage>)
    ensures
        cusages_view(a + b) == cusages_view(a) + cusages_view(b),
    decreases b.len(),
{
    if b.len() == 0 {
        assert(a + b =~= a);
        assert(cusages_view(a) + cusages_view(b) =~= cusages_view(a));
    } else {
        lemma_cusages_view_concat(a, b.drop_last());
        assert((a + b).drop_last() =~= a + b.drop_last());
        assert((a + b).last() == b.last());
        assert(cusages_view(a + b) =~= cusages_view(a) + cusages_view(b));
    }
}

/// Collects several modules into one collection, in order.
pub fn collect_modules(modules: &[ParsedModule], mappings: &MappingBundle) -> (r: Result<CollectedModule, Diagnostic>)
    ensures
        match modules_out(modules@, mappings@, modules@.len() as int) {
            Ok(o) => r matches Ok(c) && c@ == o,
            Err(e) => r matches Err(d) && d.message@ == e,
        },
{
    let mut collected = CollectedModule::new();
    let mut i: usize = 0;
    while i < modules.len()
        invariant
            i <= modules@.len(),
            modules_out(modules@, mappings@, i as int) matches Ok(o) && collected@ == o,
        decreases modules@.len() - i,
    {
        let ghost prev = collected@;
        let mut module = match collect_module(&modules[i], mappings) {
            Ok(c) => c,
            Err(d) => {
                proof {
                    lemma_modules_out_error_stays(modules@, mappings@, i + 1, modules@.len() as int);
                }
                return Err(d);
            },
        };
        let ghost mv = module@;
        let ghost usages_before = collected.usages@;
        let ghost usages_added = module.usages@;
        collected.packages.append(&mut module.packages);
        collected.imports.append(&mut module.imports);
        collected.definitions.append(&mut module.definitions);
        collected.usages.append(&mut module.usages);
        collected.aliases.append(&mut module.aliases);
        proof {
            lemma_cusages_view_concat(usages_before, usages_added);
            assert(collected@ =~= joined_out(prev, mv));
        }
        i = i + 1;
    }
    Ok(collected)
}

} // verus!
