//! The syntax tree that the KerML parser produces, with a mathematical view
//! of each node in which strings are character sequences.
use vstd::prelude::*;

use crate::kerml::token::SourceSpan;
use crate::strmap::StrMap;

verus! {

/// A possibly qualified name such as `Domain::Vehicles::Car`.
#[derive(Debug, Clone)]
pub struct QualifiedName {
    pub segments: Vec<String>,
    pub span: SourceSpan,
}

/// `import Some::Path::*;`
#[derive(Debug)]
pub struct ImportDecl {
    pub path: QualifiedName,
    pub docs: Vec<String>,
    pub modifiers: Vec<String>,
    pub span: SourceSpan,
}

/// `alias Name for Target;`
#[derive(Debug)]
pub struct AliasDecl {
    pub name: String,
    pub target: QualifiedName,
    pub docs: Vec<String>,
    pub modifiers: Vec<String>,
    pub span: SourceSpan,
}

/// `package Name { ... }`
#[derive(Debug)]
pub struct PackageDecl {
    pub name: QualifiedName,
    pub members: Vec<Declaration>,
    pub imports: Vec<ImportDecl>,
    pub definitions: Vec<GenericDefinitionDecl>,
    pub docs: Vec<String>,
    pub modifiers: Vec<String>,
    pub span: SourceSpan,
}

/// A classifier-like definition (`classifier`, `struct`, `feature def`, ...).
#[derive(Debug)]
pub struct GenericDefinitionDecl {
    pub keyword: String,
    pub name: String,
    pub specializes: Vec<QualifiedName>,
    pub members: Vec<Declaration>,
    pub docs: Vec<String>,
    pub modifiers: Vec<String>,
    pub span: SourceSpan,
}

/// A multiplicity as written, with its bounds.
#[derive(Debug, Clone, PartialEq, Eq)]
pub struct MultiplicityRange {
    pub raw: String,
    pub lower: String,
    pub upper: String,
}

/// A feature-like usage (`feature`, an unprefixed feature, or an opaque
/// declaration the grammar only delimits).
#[derive(Debug)]
pub struct GenericUsageDecl {
    pub keyword: String,
    pub name: String,
    pub is_implicit_name: bool,
    pub ty: Option<QualifiedName>,
    pub reference_target: Option<QualifiedName>,
    pub allocation_source: Option<QualifiedName>,
    pub allocation_target: Option<QualifiedName>,
    pub additional_types: Vec<QualifiedName>,
    pub specializes: Vec<QualifiedName>,
    pub subsets: Vec<QualifiedName>,
    pub redefines: Vec<QualifiedName>,
    pub metadata_properties: StrMap<String>,
    pub multiplicity: Option<MultiplicityRange>,
    pub body_members: Vec<Declaration>,
    pub docs: Vec<String>,
    pub modifiers: Vec<String>,
    pub span: SourceSpan,
}

/// One member of a package, classifier or feature body.
#[derive(Debug)]
pub enum Declaration {
    Package(PackageDecl),
    Import(ImportDecl),
    GenericDefinition(GenericDefinitionDecl),
    GenericUsage(GenericUsageDecl),
    Alias(AliasDecl),
}

/// A parsed source file.
#[derive(Debug)]
pub struct ParsedModule {
    pub package: Option<PackageDecl>,
    pub imports: Vec<ImportDecl>,
    pub members: Vec<Declaration>,
}

// ---------------------------------------------------------------- views

pub struct QualifiedNameView {
    pub segments: Seq<Seq<char>>,
    pub span: SourceSpan,
}

pub struct ImportView {
    pub path: QualifiedNameView,
    pub docs: Seq<Seq<char>>,
    pub modifiers: Seq<Seq<char>>,
    pub span: SourceSpan,
}

pub struct AliasView {
    pub name: Seq<char>,
    pub target: QualifiedNameView,
    pub docs: Seq<Seq<char>>,
    pub modifiers: Seq<Seq<char>>,
    pub span: SourceSpan,
}

pub struct PackageView {
    pub name: QualifiedNameView,
    pub members: Seq<DeclarationView>,
    pub imports: Seq<ImportView>,
    pub definitions: Seq<DeclarationView>,
    pub docs: Seq<Seq<char>>,
    pub modifiers: Seq<Seq<char>>,
    pub span: SourceSpan,
}

pub struct DefinitionView {
    pub keyword: Seq<char>,
    pub name: Seq<char>,
    pub specializes: Seq<QualifiedNameView>,
    pub members: Seq<DeclarationView>,
    pub docs: Seq<Seq<char>>,
    pub modifiers: Seq<Seq<char>>,
    pub span: SourceSpan,
}

pub struct UsageView {
    pub keyword: Seq<char>,
    pub name: Seq<char>,
    pub is_implicit_name: bool,
    pub ty: Option<QualifiedNameView>,
    pub reference_target: Option<QualifiedNameView>,
    pub allocation_source: Option<QualifiedNameView>,
    pub allocation_target: Option<QualifiedNameView>,
    pub additional_types: Seq<QualifiedNameView>,
    pub specializes: Seq<QualifiedNameView>,
    pub subsets: Seq<QualifiedNameView>,
    pub redefines: Seq<QualifiedNameView>,
    pub metadata_properties: Seq<(Seq<char>, String)>,
    pub multiplicity: Option<MultiplicityView>,
    pub body_members: Seq<DeclarationView>,
    pub docs: Seq<Seq<char>>,
    pub modifiers: Seq<Seq<char>>,
    pub span: SourceSpan,
}

pub struct MultiplicityView {
    pub raw: Seq<char>,
    pub lower: Seq<char>,
    pub upper: Seq<char>,
}

pub enum DeclarationView {
    Package(PackageView),
    Import(ImportView),
    GenericDefinition(DefinitionView),
    GenericUsage(UsageView),
    Alias(AliasView),
}

pub struct ModuleView {
    pub package: Option<PackageView>,
    pub imports: Seq<ImportView>,
    pub members: Seq<DeclarationView>,
}

/// The character sequences of a list of strings.
pub open spec fn strings_view(v: Seq<String>) -> Seq<Seq<char>> {
    v.map_values(|s: String| s@)
}

/// The views of a list of qualified names.
pub open spec fn names_view(v: Seq<QualifiedName>) -> Seq<QualifiedNameView> {
    v.map_values(|q: QualifiedName| q@)
}

/// The view of an optional qualified name.
pub open spec fn opt_name_view(o: Option<QualifiedName>) -> Option<QualifiedNameView> {
    match o {
        Some(q) => Some(q@),
        None => None,
    }
}

/// The view of an optional multiplicity.
pub open spec fn opt_multiplicity_view(o: Option<MultiplicityRange>) -> Option<MultiplicityView> {
    match o {
        Some(m) => Some(m@),
        None => None,
    }
}

/// The views of a list of imports.
pub open spec fn imports_view(v: Seq<ImportDecl>) -> Seq<ImportView> {
    v.map_values(|i: ImportDecl| i@)
}

impl View for QualifiedName {
    type V = QualifiedNameView;

    open spec fn view(&self) -> QualifiedNameView {
        QualifiedNameView { segments: strings_view(self.segments@), span: self.span }
    }
}

impl View for MultiplicityRange {
    type V = MultiplicityView;

    open spec fn view(&self) -> MultiplicityView {
        MultiplicityView { raw: self.raw@, lower: self.lower@, upper: self.upper@ }
    }
}

impl View for ImportDecl {
    type V = ImportView;

    open spec fn view(&self) -> ImportView {
        ImportView {
            path: self.path@,
            docs: strings_view(self.docs@),
            modifiers: strings_view(self.modifiers@),
            span: self.span,
        }
    }
}

impl View for AliasDecl {
    type V = AliasView;

    open spec fn view(&self) -> AliasView {
        AliasView {
            name: self.name@,
            target: self.target@,
            docs: strings_view(self.docs@),
            modifiers: strings_view(self.modifiers@),
            span: self.span,
        }
    }
}

/// The view of a declaration.
pub open spec fn decl_view(d: Declaration) -> DeclarationView
    decreases d, 2int,
{
    match d {
        Declaration::Package(p) => DeclarationView::Package(package_view(p)),
        Declaration::Import(i) => DeclarationView::Import(i@),
        Declaration::GenericDefinition(g) => DeclarationView::GenericDefinition(definition_view(g)),
        Declaration::GenericUsage(u) => DeclarationView::GenericUsage(usage_view(u)),
        Declaration::Alias(a) => DeclarationView::Alias(a@),
    }
}

/// The views of a list of declarations.
pub open spec fn decls_view(s: Seq<Declaration>) -> Seq<DeclarationView>
    decreases s, 0int,
{
    if s.len() == 0 {
        Seq::empty()
    } else {
        decls_view(s.drop_last()).push(decl_view(s.last()))
    }
}

/// The views of a list of definitions, each as a declaration.
pub open spec fn definitions_view(s: Seq<GenericDefinitionDecl>) -> Seq<DeclarationView>
    decreases s, 0int,
{
    if s.len() == 0 {
        Seq::empty()
    } else {
        definitions_view(s.drop_last()).push(
            DeclarationView::GenericDefinition(definition_view(s.last())),
        )
    }
}

/// The view of a package.
pub open spec fn package_view(p: PackageDecl) -> PackageView
    decreases p, 1int,
{
    PackageView {
        name: p.name@,
        members: decls_view(p.members@),
        imports: imports_view(p.imports@),
        definitions: definitions_view(p.definitions@),
        docs: strings_view(p.docs@),
        modifiers: strings_view(p.modifiers@),
        span: p.span,
    }
}

/// The view of a definition.
pub open spec fn definition_view(g: GenericDefinitionDecl) -> DefinitionView
    decreases g, 1int,
{
    DefinitionView {
        keyword: g.keyword@,
        name: g.name@,
        specializes: names_view(g.specializes@),
        members: decls_view(g.members@),
        docs: strings_view(g.docs@),
        modifiers: strings_view(g.modifiers@),
        span: g.span,
    }
}

/// The view of a usage.
pub open spec fn usage_view(u: GenericUsageDecl) -> UsageView
    decreases u, 1int,
{
    UsageView {
        keyword: u.keyword@,
        name: u.name@,
        is_implicit_name: u.is_implicit_name,
        ty: opt_name_view(u.ty),
        reference_target: opt_name_view(u.reference_target),
        allocation_source: opt_name_view(u.allocation_source),
        allocation_target: opt_name_view(u.allocation_target),
        additional_types: names_view(u.additional_types@),
        specializes: names_view(u.specializes@),
        subsets: names_view(u.subsets@),
        redefines: names_view(u.redefines@),
        metadata_properties: u.metadata_properties@,
        multiplicity: opt_multiplicity_view(u.multiplicity),
        body_members: decls_view(u.body_members@),
        docs: strings_view(u.docs@),
        modifiers: strings_view(u.modifiers@),
        span: u.span,
    }
}

impl View for Declaration {
    type V = DeclarationView;

    open spec fn view(&self) -> DeclarationView {
        decl_view(*self)
    }
}

impl View for PackageDecl {
    type V = PackageView;

    open spec fn view(&self) -> PackageView {
        package_view(*self)
    }
}

impl View for GenericDefinitionDecl {
    type V = DefinitionView;

    open spec fn view(&self) -> DefinitionView {
        definition_view(*self)
    }
}

impl View for GenericUsageDecl {
    type V = UsageView;

    open spec fn view(&self) -> UsageView {
        usage_view(*self)
    }
}

impl View for ParsedModule {
    type V = ModuleView;

    open spec fn view(&self) -> ModuleView {
        ModuleView {
            package: match self.package {
                Some(p) => Some(p@),
                None => None,
            },
            imports: imports_view(self.imports@),
            members: decls_view(self.members@),
        }
    }
}

/// The segments of a name joined by `.`.
pub open spec fn join_dot(segments: Seq<Seq<char>>) -> Seq<char>
    decreases segments.len(),
{
    if segments.len() == 0 {
        Seq::empty()
    } else if segments.len() == 1 {
        segments[0]
    } else {
        join_dot(segments.drop_last()) + seq!['.'] + segments.last()
    }
}

/// The segments joined by `::`.
pub open spec fn join_colon(segments: Seq<Seq<char>>) -> Seq<char>
    decreases segments.len(),
{
    if segments.len() == 0 {
        Seq::empty()
    } else if segments.len() == 1 {
        segments[0]
    } else {
        join_colon(segments.drop_last()) + "::"@ + segments.last()
    }
}

impl QualifiedName {
    /// The segments joined by `::`, e.g. `Domain::Vehicles::Car`.
    pub fn as_colon_string(&self) -> (s: String)
        ensures
            s@ == join_colon(self@.segments),
    {
        let mut s = String::new();
        let mut i: usize = 0;
        while i < self.segments.len()
            invariant
                i <= self.segments@.len(),
                s@ == join_colon(strings_view(self.segments@).subrange(0, i as int)),
            decreases self.segments@.len() - i,
        {
            let ghost prefix = strings_view(self.segments@).subrange(0, i + 1);
            assert(prefix.drop_last() == strings_view(self.segments@).subrange(0, i as int));
            if i > 0 {
                s.append("::");
            }
            s.append(self.segments[i].as_str());
            i = i + 1;
        }
        assert(strings_view(self.segments@).subrange(0, self.segments@.len() as int)
            == strings_view(self.segments@));
        s
    }

    /// A copy of this name.
    pub fn copy(&self) -> (r: Self)
        ensures
            r@ == self@,
    {
        QualifiedName { segments: clone_strings(&self.segments), span: self.span }
    }

    /// The segments joined by `.`, e.g. `Domain.Vehicles.*`.
    pub fn as_dot_string(&self) -> (s: String)
        ensures
            s@ == join_dot(self@.segments),
    {
        let mut s = String::new();
        let mut i: usize = 0;
        while i < self.segments.len()
            invariant
                i <= self.segments@.len(),
                s@ == join_dot(strings_view(self.segments@).subrange(0, i as int)),
            decreases self.segments@.len() - i,
        {
            let ghost prefix = strings_view(self.segments@).subrange(0, i + 1);
            assert(prefix.drop_last() == strings_view(self.segments@).subrange(0, i as int));
            if i > 0 {
                crate::text::push_char(&mut s, '.');
            }
            s.append(self.segments[i].as_str());
            i = i + 1;
        }
        assert(strings_view(self.segments@).subrange(0, self.segments@.len() as int)
            == strings_view(self.segments@));
        s
    }
}

// ---------------------------------------------------------------- copies

/// A copy of a list of strings.
pub fn clone_strings(v: &Vec<String>) -> (r: Vec<String>)
    ensures
        strings_view(r@) == strings_view(v@),
        r@.len() == v@.len(),
{
    let mut r: Vec<String> = Vec::new();
    let mut i: usize = 0;
    while i < v.len()
        invariant
            i <= v@.len(),
            r@.len() == i,
            forall|j: int| 0 <= j < i ==> r@[j]@ == v@[j]@,
        decreases v@.len() - i,
    {
        r.push(v[i].clone());
        i = i + 1;
    }
    assert(strings_view(r@) =~= strings_view(v@));
    r
}

impl QualifiedName {
    /// A copy of this name.
    pub fn duplicate(&self) -> (r: QualifiedName)
        ensures
            r@ == self@,
    {
        QualifiedName { segments: clone_strings(&self.segments), span: self.span }
    }
}

/// A copy of a list of qualified names.
pub fn clone_names(v: &Vec<QualifiedName>) -> (r: Vec<QualifiedName>)
    ensures
        names_view(r@) == names_view(v@),
{
    let mut r: Vec<QualifiedName> = Vec::new();
    let mut i: usize = 0;
    while i < v.len()
        invariant
            i <= v@.len(),
            r@.len() == i,
            forall|j: int| 0 <= j < i ==> r@[j]@ == v@[j]@,
        decreases v@.len() - i,
    {
        r.push(v[i].duplicate());
        i = i + 1;
    }
    assert(names_view(r@) =~= names_view(v@));
    r
}

/// A copy of an optional qualified name.
pub fn clone_opt_name(o: &Option<QualifiedName>) -> (r: Option<QualifiedName>)
    ensures
        opt_name_view(r) == opt_name_view(*o),
{
    match o {
        Some(q) => Some(q.duplicate()),
        None => None,
    }
}

impl MultiplicityRange {
    /// A copy of this multiplicity.
    pub fn duplicate(&self) -> (r: MultiplicityRange)
        ensures
            r@ == self@,
    {
        MultiplicityRange { raw: self.raw.clone(), lower: self.lower.clone(), upper: self.upper.clone() }
    }
}

/// A copy of an optional multiplicity.
pub fn clone_opt_multiplicity(o: &Option<MultiplicityRange>) -> (r: Option<MultiplicityRange>)
    ensures
        opt_multiplicity_view(r) == opt_multiplicity_view(*o),
{
    match o {
        Some(m) => Some(m.duplicate()),
        None => None,
    }
}

impl ImportDecl {
    /// A copy of this import.
    pub fn duplicate(&self) -> (r: ImportDecl)
        ensures
            r@ == self@,
    {
        ImportDecl {
            path: self.path.duplicate(),
            docs: clone_strings(&self.docs),
            modifiers: clone_strings(&self.modifiers),
            span: self.span,
        }
    }
}

/// A copy of a list of imports.
pub fn clone_imports(v: &Vec<ImportDecl>) -> (r: Vec<ImportDecl>)
    ensures
        imports_view(r@) == imports_view(v@),
{
    let mut r: Vec<ImportDecl> = Vec::new();
    let mut i: usize = 0;
    while i < v.len()
        invariant
            i <= v@.len(),
            r@.len() == i,
            forall|j: int| 0 <= j < i ==> r@[j]@ == v@[j]@,
        decreases v@.len() - i,
    {
        r.push(v[i].duplicate());
        i = i + 1;
    }
    assert(imports_view(r@) =~= imports_view(v@));
    r
}

impl AliasDecl {
    /// A copy of this alias.
    pub fn duplicate(&self) -> (r: AliasDecl)
        ensures
            r@ == self@,
    {
        AliasDecl {
            name: self.name.clone(),
            target: self.target.duplicate(),
            docs: clone_strings(&self.docs),
            modifiers: clone_strings(&self.modifiers),
            span: self.span,
        }
    }
}

/// A copy of a list of declarations.
pub fn clone_decls(v: &Vec<Declaration>) -> (r: Vec<Declaration>)
    ensures
        decls_view(r@) == decls_view(v@),
    decreases v,
{
    let mut r: Vec<Declaration> = Vec::new();
    let mut i: usize = 0;
    while i < v.len()
        invariant
            i <= v@.len(),
            decls_view(r@) == decls_view(v@.subrange(0, i as int)),
        decreases v@.len() - i,
    {
        proof {
            vstd::std_specs::vec::axiom_vec_index_decreases(*v, i as int);
        }
        let d = v[i].duplicate();
        let ghost before = r@;
        r.push(d);
        assert(r@.drop_last() == before);
        assert(v@.subrange(0, i + 1).drop_last() == v@.subrange(0, i as int));
        i = i + 1;
    }
    assert(v@.subrange(0, v@.len() as int) == v@);
    r
}

/// A copy of a list of definitions.
pub fn clone_definitions(v: &Vec<GenericDefinitionDecl>) -> (r: Vec<GenericDefinitionDecl>)
    ensures
        definitions_view(r@) == definitions_view(v@),
    decreases v,
{
    let mut r: Vec<GenericDefinitionDecl> = Vec::new();
    let mut i: usize = 0;
    while i < v.len()
        invariant
            i <= v@.len(),
            definitions_view(r@) == definitions_view(v@.subrange(0, i as int)),
        decreases v@.len() - i,
    {
        proof {
            vstd::std_specs::vec::axiom_vec_index_decreases(*v, i as int);
        }
        let d = v[i].duplicate();
        let ghost before = r@;
        r.push(d);
        assert(r@.drop_last() == before);
        assert(v@.subrange(0, i + 1).drop_last() == v@.subrange(0, i as int));
        i = i + 1;
    }
    assert(v@.subrange(0, v@.len() as int) == v@);
    r
}

impl PackageDecl {
    /// A copy of this package.
    pub fn duplicate(&self) -> (r: PackageDecl)
        ensures
            r@ == self@,
        decreases self,
    {
        PackageDecl {
            name: self.name.duplicate(),
            members: clone_decls(&self.members),
            imports: clone_imports(&self.imports),
            definitions: clone_definitions(&self.definitions),
            docs: clone_strings(&self.docs),
            modifiers: clone_strings(&self.modifiers),
            span: self.span,
        }
    }
}

impl GenericDefinitionDecl {
    /// A copy of this definition.
    pub fn duplicate(&self) -> (r: GenericDefinitionDecl)
        ensures
            r@ == self@,
        decreases self,
    {
        GenericDefinitionDecl {
            keyword: self.keyword.clone(),
            name: self.name.clone(),
            specializes: clone_names(&self.specializes),
            members: clone_decls(&self.members),
            docs: clone_strings(&self.docs),
            modifiers: clone_strings(&self.modifiers),
            span: self.span,
        }
    }
}

impl GenericUsageDecl {
    /// A copy of this usage.
    pub fn duplicate(&self) -> (r: GenericUsageDecl)
        ensures
            r@ == self@,
        decreases self,
    {
        GenericUsageDecl {
            keyword: self.keyword.clone(),
            name: self.name.clone(),
            is_implicit_name: self.is_implicit_name,
            ty: clone_opt_name(&self.ty),
            reference_target: clone_opt_name(&self.reference_target),
            allocation_source: clone_opt_name(&self.allocation_source),
            allocation_target: clone_opt_name(&self.allocation_target),
            additional_types: clone_names(&self.additional_types),
            specializes: clone_names(&self.specializes),
            subsets: clone_names(&self.subsets),
            redefines: clone_names(&self.redefines),
            metadata_properties: self.metadata_properties.copy(),
            multiplicity: clone_opt_multiplicity(&self.multiplicity),
            body_members: clone_decls(&self.body_members),
            docs: clone_strings(&self.docs),
            modifiers: clone_strings(&self.modifiers),
            span: self.span,
        }
    }
}

impl Declaration {
    /// A copy of this declaration.
    pub fn duplicate(&self) -> (r: Declaration)
        ensures
            r@ == self@,
        decreases self,
    {
        match self {
            Declaration::Package(p) => Declaration::Package(p.duplicate()),
            Declaration::Import(i) => Declaration::Import(i.duplicate()),
            Declaration::GenericDefinition(g) => Declaration::GenericDefinition(g.duplicate()),
            Declaration::GenericUsage(u) => Declaration::GenericUsage(u.duplicate()),
            Declaration::Alias(a) => Declaration::Alias(a.duplicate()),
        }
    }
}

} // verus!
