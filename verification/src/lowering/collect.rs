//! The collect phase: the declarations of a parsed module gathered into
//! packages, imports, definitions, usages and aliases with their qualified
//! names, as the lowering rules direct.
use vstd::prelude::*;

use crate::kerml::ast::{
    Declaration, DefinitionView, GenericDefinitionDecl, GenericUsageDecl, ImportDecl, ImportView,
    MultiplicityRange, MultiplicityView, QualifiedName, QualifiedNameView, UsageView, clone_names,
    clone_opt_multiplicity, clone_opt_name, clone_strings, decl_view, decls_view, join_dot, names_view,
    opt_multiplicity_view, opt_name_view, strings_view,
};
use crate::kerml::token::{Diagnostic, SourceSpan};
use crate::lowering::bundle::{
    MappingBundle, MappingView, definition_construct, opt_string_view, opt_strings, usage_construct,
};
use crate::lowering::elaborate::{has_step, should_annotate_connection_end_direction};
use crate::lowering::ids::rule_for;
use crate::lowering::rules::LoweringRule;
use crate::lowering::usage_semantics::strings_contain;
use crate::strmap::{StrMap, lookup, str_lookup};
use crate::text::{concat3, owned, push_char, split_on, split_str, str_eq};

verus! {

/// The names that imports bring into a package: values and namespaces by
/// alias, and the aliases that more than one import claims.
#[derive(Debug, Clone, Default)]
pub struct ImportAliases {
    pub value_aliases: StrMap<String>,
    pub namespace_aliases: StrMap<QualifiedName>,
    pub ambiguous_value_aliases: StrMap<()>,
    pub ambiguous_namespace_aliases: StrMap<()>,
}

/// An alias declared in the module being lowered: its qualified name, the
/// name it was declared under, and the name it stands for.
#[derive(Debug, Clone)]
pub struct CollectedAlias {
    pub qualified_name: String,
    pub declared_name: String,
    pub target: QualifiedName,
}

/// The strings of `v` joined by `.`.
pub fn join_dot_strings(v: &[String]) -> (s: String)
    ensures
        s@ == join_dot(strings_view(v@)),
{
    let mut s = String::new();
    let mut i: usize = 0;
    while i < v.len()
        invariant
            i <= v@.len(),
            s@ == join_dot(strings_view(v@).subrange(0, i as int)),
        decreases v@.len() - i,
    {
        let ghost prefix = strings_view(v@).subrange(0, i + 1);
        assert(prefix.drop_last() == strings_view(v@).subrange(0, i as int));
        if i > 0 {
            push_char(&mut s, '.');
        }
        s.append(v[i].as_str());
        i = i + 1;
    }
    assert(strings_view(v@).subrange(0, v@.len() as int) == strings_view(v@));
    s
}

/// A copy of a list of strings.
fn strings_copy(v: &[String]) -> (r: Vec<String>)
    ensures
        strings_view(r@) == strings_view(v@),
{
    let mut r: Vec<String> = Vec::new();
    let mut i: usize = 0;
    while i < v.len()
        invariant
            i <= v@.len(),
            r@.len() == i,
            forall|j: int| 0 <= j < i ==> (#[trigger] r@[j])@ == v@[j]@,
        decreases v@.len() - i,
    {
        r.push(v[i].clone());
        i = i + 1;
    }
    assert(strings_view(r@) =~= strings_view(v@));
    r
}

/// `name` qualified by the owning package's segments, joined by `.`.
pub fn qualify_name(owner_package_segments: &[String], name: &str) -> (r: String)
    ensures
        r@ == join_dot(strings_view(owner_package_segments@).push(name@)),
{
    let mut segments = strings_copy(owner_package_segments);
    let ghost before = segments@;
    segments.push(String::from_str(name));
    proof {
        assert(segments@ == before.push(segments@.last()));
        assert(strings_view(segments@) =~= strings_view(before).push(name@));
    }
    join_dot_strings(segments.as_slice())
}

/// The qualified name of a usage declared as `declared_name` in the owner
/// `owner_qualified_name`; members of the root scope are not prefixed.
pub fn usage_qualified_name(owner_qualified_name: &str, declared_name: &str) -> (r: String)
    ensures
        r@ == member_qualified_name(owner_qualified_name@, declared_name@),
{
    if str_eq(owner_qualified_name, "root") {
        String::from_str(declared_name)
    } else {
        concat3(owner_qualified_name, ".", declared_name)
    }
}

/// The qualified name of a member declared as `name` in the element named
/// `owner`; members of the root scope are not prefixed.
pub open spec fn member_qualified_name(owner: Seq<char>, name: Seq<char>) -> Seq<char> {
    if owner == "root"@ {
        name
    } else {
        owner + "."@ + name
    }
}

/// The owning package's segments followed by the declared segments.
pub fn qualify_segments(owner_package_segments: &[String], declared_segments: &[String]) -> (r:
    Vec<String>)
    ensures
        strings_view(r@) == strings_view(owner_package_segments@) + strings_view(
            declared_segments@,
        ),
{
    let mut segments = strings_copy(owner_package_segments);
    let ghost base = strings_view(owner_package_segments@);
    let mut j: usize = 0;
    while j < declared_segments.len()
        invariant
            j <= declared_segments@.len(),
            segments@.len() == base.len() + j,
            forall|k: int| 0 <= k < base.len() ==> (#[trigger] segments@[k])@ == base[k],
            forall|k: int|
                0 <= k < j ==> (#[trigger] segments@[base.len() + k])@ == declared_segments@[k]@,
        decreases declared_segments@.len() - j,
    {
        segments.push(declared_segments[j].clone());
        j = j + 1;
    }
    proof {
        assert forall|k: int| 0 <= k < segments@.len() implies (#[trigger] strings_view(segments@)[k])
            == (base + strings_view(declared_segments@))[k] by {
            if k >= base.len() {
                assert(segments@[base.len() + (k - base.len())] == segments@[k]);
            }
        }
        assert(strings_view(segments@) =~= base + strings_view(declared_segments@));
    }
    segments
}

/// The collect expression a rule gives for `slot` (`name`, `owner` or
/// `element`; empty for any other slot).
pub open spec fn collect_slot(rule: LoweringRule, slot: Seq<char>) -> Seq<char> {
    if slot == "name"@ {
        rule.collect.name@
    } else if slot == "owner"@ {
        rule.collect.owner@
    } else if slot == "element"@ {
        rule.collect.element@
    } else {
        Seq::empty()
    }
}

/// The message for a collect expression that this phase cannot execute.
pub open spec fn unsupported_collect_message(construct: Seq<char>, slot: Seq<char>, expression: Seq<
    char,
>) -> Seq<char> {
    "lowering rule `"@ + construct + "` collect expression `"@ + expression + "` in `"@ + slot
        + "` is not executable here"@
}

fn unsupported_collect_expression(rule: &LoweringRule, slot: &str, expression: &str) -> (d:
    Diagnostic)
    ensures
        d.message@ == unsupported_collect_message(rule.construct@, slot@, expression@),
        d.span is None,
{
    let mut m = String::from_str("lowering rule `");
    m.append(rule.construct.as_str());
    m.append("` collect expression `");
    m.append(expression);
    m.append("` in `");
    m.append(slot);
    m.append("` is not executable here");
    Diagnostic::new(m.as_str(), None)
}

/// Checks that `rule` collects `slot` with exactly `expected`.
pub fn require_collect_expression(rule: &LoweringRule, slot: &str, expected: &str) -> (r: Result<
    (),
    Diagnostic,
>)
    ensures
        r is Ok <==> collect_slot(*rule, slot@) == expected@,
        match r {
            Ok(()) => true,
            Err(d) => d.message@ == unsupported_collect_message(
                rule.construct@,
                slot@,
                collect_slot(*rule, slot@),
            ) && d.span is None,
        },
{
    let actual: &str = if str_eq(slot, "name") {
        rule.collect.name.as_str()
    } else if str_eq(slot, "owner") {
        rule.collect.owner.as_str()
    } else if str_eq(slot, "element") {
        rule.collect.element.as_str()
    } else {
        ""
    };
    proof {
        reveal_strlit("");
        assert(actual@ == collect_slot(*rule, slot@));
    }
    if str_eq(actual, expected) {
        Ok(())
    } else {
        Err(unsupported_collect_expression(rule, slot, actual))
    }
}


// ---------------------------------------------------------------- collected elements

/// An import and the qualified name of the element that owns it.
#[derive(Debug)]
pub struct CollectedImport {
    pub owner_package_qualified_name: Option<String>,
    pub decl: ImportDecl,
}

/// A usage as collected: its construct and names, the references it
/// declares (still unresolved), and its member usages.
#[derive(Debug)]
pub struct CollectedUsage {
    pub construct: String,
    pub owner_construct: String,
    pub owner_qualified_name: String,
    pub qualified_name: String,
    pub declared_name: String,
    pub is_implicit_name: bool,
    pub ty: Option<QualifiedName>,
    pub additional_types: Vec<QualifiedName>,
    pub reference_target: Option<QualifiedName>,
    pub allocation_source: Option<QualifiedName>,
    pub allocation_target: Option<QualifiedName>,
    pub metadata_properties: StrMap<String>,
    pub multiplicity: Option<MultiplicityRange>,
    pub specializes: Vec<QualifiedName>,
    pub subsets: Vec<QualifiedName>,
    pub redefines: Vec<QualifiedName>,
    pub members: Vec<CollectedUsage>,
    pub modifiers: Vec<String>,
    pub docs: Vec<String>,
    pub span: SourceSpan,
}

/// A definition as collected: its construct and names, the types it
/// specializes (still unresolved), and its member usages.
#[derive(Debug)]
pub struct CollectedDefinition {
    pub construct: String,
    pub qualified_name: String,
    pub declared_name: String,
    pub is_abstract: bool,
    pub specializes: Vec<QualifiedName>,
    pub members: Vec<CollectedUsage>,
    pub docs: Vec<String>,
    pub span: SourceSpan,
}

pub struct CollectedImportView {
    pub owner: Option<Seq<char>>,
    pub decl: ImportView,
}

pub struct CollectedAliasView {
    pub qualified_name: Seq<char>,
    pub declared_name: Seq<char>,
    pub target: QualifiedNameView,
}

pub struct CollectedUsageView {
    pub construct: Seq<char>,
    pub owner_construct: Seq<char>,
    pub owner_qualified_name: Seq<char>,
    pub qualified_name: Seq<char>,
    pub declared_name: Seq<char>,
    pub is_implicit_name: bool,
    pub ty: Option<QualifiedNameView>,
    pub additional_types: Seq<QualifiedNameView>,
    pub reference_target: Option<QualifiedNameView>,
    pub allocation_source: Option<QualifiedNameView>,
    pub allocation_target: Option<QualifiedNameView>,
    pub metadata_properties: Seq<(Seq<char>, String)>,
    pub multiplicity: Option<MultiplicityView>,
    pub specializes: Seq<QualifiedNameView>,
    pub subsets: Seq<QualifiedNameView>,
    pub redefines: Seq<QualifiedNameView>,
    pub members: Seq<CollectedUsageView>,
    pub modifiers: Seq<Seq<char>>,
    pub docs: Seq<Seq<char>>,
    pub span: SourceSpan,
}

pub struct CollectedDefinitionView {
    pub construct: Seq<char>,
    pub qualified_name: Seq<char>,
    pub declared_name: Seq<char>,
    pub is_abstract: bool,
    pub specializes: Seq<QualifiedNameView>,
    pub members: Seq<CollectedUsageView>,
    pub docs: Seq<Seq<char>>,
    pub span: SourceSpan,
}

impl View for CollectedImport {
    type V = CollectedImportView;

    open spec fn view(&self) -> CollectedImportView {
        CollectedImportView { owner: opt_string_view(self.owner_package_qualified_name), decl: self.decl@ }
    }
}

impl View for CollectedAlias {
    type V = CollectedAliasView;

    open spec fn view(&self) -> CollectedAliasView {
        CollectedAliasView { qualified_name: self.qualified_name@, declared_name: self.declared_name@, target: self.target@ }
    }
}

/// The view of a collected usage.
pub open spec fn cusage_view(u: CollectedUsage) -> CollectedUsageView
    decreases u, 1int,
{
    CollectedUsageView {
        construct: u.construct@,
        owner_construct: u.owner_construct@,
        owner_qualified_name: u.owner_qualified_name@,
        qualified_name: u.qualified_name@,
        declared_name: u.declared_name@,
        is_implicit_name: u.is_implicit_name,
        ty: opt_name_view(u.ty),
        additional_types: names_view(u.additional_types@),
        reference_target: opt_name_view(u.reference_target),
        allocation_source: opt_name_view(u.allocation_source),
        allocation_target: opt_name_view(u.allocation_target),
        metadata_properties: u.metadata_properties@,
        multiplicity: opt_multiplicity_view(u.multiplicity),
        specializes: names_view(u.specializes@),
        subsets: names_view(u.subsets@),
        redefines: names_view(u.redefines@),
        members: cusages_view(u.members@),
        modifiers: strings_view(u.modifiers@),
        docs: strings_view(u.docs@),
        span: u.span,
    }
}

/// The views of a list of collected usages.
pub open spec fn cusages_view(s: Seq<CollectedUsage>) -> Seq<CollectedUsageView>
    decreases s, 0int,
{
    if s.len() == 0 {
        Seq::empty()
    } else {
        cusages_view(s.drop_last()).push(cusage_view(s.last()))
    }
}

impl View for CollectedUsage {
    type V = CollectedUsageView;

    open spec fn view(&self) -> CollectedUsageView {
        cusage_view(*self)
    }
}

impl View for CollectedDefinition {
    type V = CollectedDefinitionView;

    open spec fn view(&self) -> CollectedDefinitionView {
        CollectedDefinitionView {
            construct: self.construct@,
            qualified_name: self.qualified_name@,
            declared_name: self.declared_name@,
            is_abstract: self.is_abstract,
            specializes: names_view(self.specializes@),
            members: cusages_view(self.members@),
            docs: strings_view(self.docs@),
            span: self.span,
        }
    }
}

/// Appending a usage appends its view.
pub proof fn lemma_cusages_view_push(s: Seq<CollectedUsage>, x: CollectedUsage)
    ensures
        cusages_view(s.push(x)) == cusages_view(s).push(cusage_view(x)),
{
    assert(s.push(x).drop_last() =~= s);
}

/// The view of a list has its length, element by element.
pub proof fn lemma_cusages_view_index(s: Seq<CollectedUsage>)
    ensures
        cusages_view(s).len() == s.len(),
        forall|i: int| 0 <= i < s.len() ==> #[trigger] cusages_view(s)[i] == cusage_view(s[i]),
    decreases s.len(),
{
    if s.len() > 0 {
        lemma_cusages_view_index(s.drop_last());
        assert forall|i: int| 0 <= i < s.len() implies #[trigger] cusages_view(s)[i] == cusage_view(s[i]) by {
            if i < s.len() - 1 {
                assert(s.drop_last()[i] == s[i]);
            }
        }
    }
}

/// The view of a list of declarations has its length, element by element.
pub proof fn lemma_decls_view_index(s: Seq<Declaration>)
    ensures
        decls_view(s).len() == s.len(),
        forall|i: int| 0 <= i < s.len() ==> #[trigger] decls_view(s)[i] == decl_view(s[i]),
    decreases s.len(),
{
    if s.len() > 0 {
        lemma_decls_view_index(s.drop_last());
        assert forall|i: int| 0 <= i < s.len() implies #[trigger] decls_view(s)[i] == decl_view(s[i]) by {
            if i < s.len() - 1 {
                assert(s.drop_last()[i] == s[i]);
            }
        }
    }
}

// ---------------------------------------------------------------- rule fields

/// Whether the collect phase executes expression `e` for field `f` of a
/// usage rule.
pub open spec fn usage_field_supported(f: Seq<char>, e: Seq<char>) -> bool {
    ||| (f == "allocation_source"@ && e == "$ast.allocation_source"@)
    ||| (f == "allocation_target"@ && e == "$ast.allocation_target"@)
    ||| (f == "annotation_target"@ && e == "$ast.reference_target"@)
    ||| (f == "reference_target"@ && e == "$ast.reference_target"@)
    ||| (f == "body"@ && e == "$ast.expression"@)
    ||| (f == "docs"@ && e == "$ast.docs"@)
    ||| (f == "members"@ && e == "$ast.body_members[usage]"@)
    ||| (f == "modifiers"@ && e == "$ast.modifiers + end"@)
    ||| (f == "multiplicity"@ && e == "$ast.multiplicity"@)
    ||| (f == "reference_target"@ && e == "$ast.reference_target or $ast.name"@)
    ||| (f == "redefines"@ && e == "$ast.redefines"@)
    ||| (f == "specializes"@ && (e == "$ast.specializes or semantic_default"@ || e == "$ast.specializes"@))
    ||| (f == "subsets"@ && e == "$ast.subsets"@)
    ||| (f == "type"@ && e == "$ast.ty"@)
}

/// Whether the collect phase executes expression `e` for field `f` of a
/// definition rule.
pub open spec fn definition_field_supported(f: Seq<char>, e: Seq<char>) -> bool {
    ||| (f == "is_abstract"@ && e == "$ast.modifiers contains abstract"@)
    ||| (f == "specializes"@ && (e == "$ast.specializes or semantic_default"@ || e == "$ast.specializes"@))
    ||| (f == "members"@ && e == "$ast.members[usage]"@)
    ||| (f == "end_members"@ && e == "$ast.members[modifier=end]"@)
    ||| (f == "docs"@ && e == "$ast.docs"@)
}

/// Whether the collect phase executes expression `e` for field `f`.
pub open spec fn field_supported(f: Seq<char>, e: Seq<char>, usage: bool) -> bool {
    if usage {
        usage_field_supported(f, e)
    } else {
        definition_field_supported(f, e)
    }
}

/// The first of the first `n` fields that the collect phase cannot execute.
pub open spec fn unsupported_field(fields: Seq<(Seq<char>, String)>, usage: bool, n: int) -> Option<(Seq<char>, Seq<char>)>
    decreases n,
{
    if n <= 0 {
        None
    } else {
        match unsupported_field(fields, usage, n - 1) {
            Some(p) => Some(p),
            None => if field_supported(fields[n - 1].0, fields[n - 1].1@, usage) {
                None
            } else {
                Some((fields[n - 1].0, fields[n - 1].1@))
            },
        }
    }
}

/// Why a rule's collect expressions cannot be executed, if they cannot: a
/// name other than `$ast.name`, or the first unsupported field.
pub open spec fn rule_collect_error(rule: Option<LoweringRule>, usage: bool) -> Option<Seq<char>> {
    match rule {
        None => None,
        Some(r) => if r.collect.name@ != "$ast.name"@ {
            Some(unsupported_collect_message(r.construct@, "name"@, r.collect.name@))
        } else {
            match unsupported_field(r.collect.fields@, usage, r.collect.fields@.len() as int) {
                Some(p) => Some(unsupported_collect_message(r.construct@, p.0, p.1)),
                None => None,
            }
        },
    }
}

/// Whether a rule collects field `f` with expression `e`.
pub open spec fn rule_field_is(rule: Option<LoweringRule>, f: Seq<char>, e: Seq<char>) -> bool {
    rule matches Some(r) && str_lookup(r.collect.fields@, f) == Some(e)
}

fn executes_field(f: &str, e: &str, usage: bool) -> (r: bool)
    ensures
        r == field_supported(f@, e@, usage),
{
    if usage {
        (str_eq(f, "allocation_source") && str_eq(e, "$ast.allocation_source"))
            || (str_eq(f, "allocation_target") && str_eq(e, "$ast.allocation_target"))
            || (str_eq(f, "annotation_target") && str_eq(e, "$ast.reference_target"))
            || (str_eq(f, "reference_target") && str_eq(e, "$ast.reference_target"))
            || (str_eq(f, "body") && str_eq(e, "$ast.expression"))
            || (str_eq(f, "docs") && str_eq(e, "$ast.docs"))
            || (str_eq(f, "members") && str_eq(e, "$ast.body_members[usage]"))
            || (str_eq(f, "modifiers") && str_eq(e, "$ast.modifiers + end"))
            || (str_eq(f, "multiplicity") && str_eq(e, "$ast.multiplicity"))
            || (str_eq(f, "reference_target") && str_eq(e, "$ast.reference_target or $ast.name"))
            || (str_eq(f, "redefines") && str_eq(e, "$ast.redefines"))
            || (str_eq(f, "specializes") && (str_eq(e, "$ast.specializes or semantic_default") || str_eq(
                e,
                "$ast.specializes",
            ))) || (str_eq(f, "subsets") && str_eq(e, "$ast.subsets")) || (str_eq(f, "type") && str_eq(
            e,
            "$ast.ty",
        ))
    } else {
        (str_eq(f, "is_abstract") && str_eq(e, "$ast.modifiers contains abstract"))
            || (str_eq(f, "specializes") && (str_eq(e, "$ast.specializes or semantic_default") || str_eq(
                e,
                "$ast.specializes",
            ))) || (str_eq(f, "members") && str_eq(e, "$ast.members[usage]"))
            || (str_eq(f, "end_members") && str_eq(e, "$ast.members[modifier=end]"))
            || (str_eq(f, "docs") && str_eq(e, "$ast.docs"))
    }
}

proof fn lemma_unsupported_field_stays(fields: Seq<(Seq<char>, String)>, usage: bool, m: int, n: int)
    requires
        m <= n,
        unsupported_field(fields, usage, m) is Some,
    ensures
        unsupported_field(fields, usage, n) == unsupported_field(fields, usage, m),
    decreases n - m,
{
    if m < n {
        lemma_unsupported_field_stays(fields, usage, m, n - 1);
    }
}

/// Checks that the collect phase can execute every collect expression of
/// `rule`.
fn check_rule_fields(rule: &LoweringRule, usage: bool) -> (r: Result<(), Diagnostic>)
    ensures
        match r {
            Ok(()) => rule_collect_error(Some(*rule), usage) is None,
            Err(d) => rule_collect_error(Some(*rule), usage) == Some(d.message@),
        },
{
    match require_collect_expression(rule, "name", "$ast.name") {
        Ok(()) => {},
        Err(d) => {
            proof {
                reveal_strlit("name");
            }
            return Err(d);
        },
    }
    proof {
        reveal_strlit("name");
    }
    let fields = &rule.collect.fields;
    let n = fields.len();
    let mut i: usize = 0;
    while i < n
        invariant
            n == fields@.len(),
            fields@ == rule.collect.fields@,
            rule.collect.name@ == "$ast.name"@,
            i <= n,
            unsupported_field(fields@, usage, i as int) is None,
        decreases n - i,
    {
        let f = fields.key_at(i);
        let e = fields.value_at(i);
        if !executes_field(f.as_str(), e.as_str(), usage) {
            let d = unsupported_collect_expression(rule, f.as_str(), e.as_str());
            proof {
                lemma_unsupported_field_stays(fields@, usage, i + 1, n as int);
            }
            return Err(d);
        }
        i = i + 1;
    }
    Ok(())
}

/// Whether `rule` collects field `f` with expression `e`.
fn collects_field(rule: &LoweringRule, f: &str, e: &str) -> (r: bool)
    ensures
        r == rule_field_is(Some(*rule), f@, e@),
{
    match rule.collect.fields.get(f) {
        Some(v) => str_eq(v.as_str(), e),
        None => false,
    }
}

// ---------------------------------------------------------------- usages and definitions

/// The modifiers of a collected usage: its own, with `end` added when the
/// rule asks for it and it is missing.
pub open spec fn collected_modifiers(u: UsageView, rule: Option<LoweringRule>) -> Seq<Seq<char>> {
    if rule_field_is(rule, "modifiers"@, "$ast.modifiers + end"@) && !u.modifiers.contains("end"@) {
        u.modifiers.push("end"@)
    } else {
        u.modifiers
    }
}

/// The reference target of a collected usage: its own, or its name when
/// the rule asks for that and it names none.
pub open spec fn collected_reference_target(u: UsageView, rule: Option<LoweringRule>) -> Option<QualifiedNameView> {
    if rule_field_is(rule, "reference_target"@, "$ast.reference_target or $ast.name"@) && u.reference_target is None
        && u.name.len() > 0 {
        Some(QualifiedNameView { segments: seq![u.name], span: u.span })
    } else {
        u.reference_target
    }
}

/// Usage `u` owned by the element `owner` (of construct `owner_construct`)
/// as collected, or why its rule cannot be executed.
pub open spec fn collected_usage(u: UsageView, owner: Seq<char>, owner_construct: Seq<char>, m: MappingView) -> Result<
    CollectedUsageView,
    Seq<char>,
>
    decreases u, 1int,
{
    let construct = usage_construct(m, u.keyword);
    let qualified_name = member_qualified_name(owner, u.name);
    let rule = rule_for(m, construct);
    match collected_members(u.body_members, qualified_name, construct, m, u.body_members.len() as int) {
        Err(e) => Err(e),
        Ok(members) => match rule_collect_error(rule, true) {
            Some(e) => Err(e),
            None => Ok(
                CollectedUsageView {
                    construct,
                    owner_construct,
                    owner_qualified_name: owner,
                    qualified_name,
                    declared_name: u.name,
                    is_implicit_name: u.is_implicit_name,
                    ty: u.ty,
                    additional_types: u.additional_types,
                    reference_target: collected_reference_target(u, rule),
                    allocation_source: u.allocation_source,
                    allocation_target: u.allocation_target,
                    metadata_properties: u.metadata_properties,
                    multiplicity: u.multiplicity,
                    specializes: u.specializes,
                    subsets: u.subsets,
                    redefines: u.redefines,
                    members,
                    modifiers: collected_modifiers(u, rule),
                    docs: u.docs,
                    span: u.span,
                },
            ),
        },
    }
}

/// The usages among the first `n` of `decls`, collected as members of the
/// element `owner` of construct `owner_construct`, or the first error.
pub open spec fn collected_members(
    decls: Seq<crate::kerml::ast::DeclarationView>,
    owner: Seq<char>,
    owner_construct: Seq<char>,
    m: MappingView,
    n: int,
) -> Result<Seq<CollectedUsageView>, Seq<char>>
    decreases decls, n,
{
    if n <= 0 || n > decls.len() {
        Ok(Seq::empty())
    } else {
        match collected_members(decls, owner, owner_construct, m, n - 1) {
            Err(e) => Err(e),
            Ok(prev) => match decls[n - 1] {
                crate::kerml::ast::DeclarationView::GenericUsage(u) => match collected_usage(u, owner, owner_construct, m) {
                    Err(e) => Err(e),
                    Ok(c) => Ok(prev.push(c)),
                },
                _ => Ok(prev),
            },
        }
    }
}

proof fn lemma_members_error_stays(
    decls: Seq<crate::kerml::ast::DeclarationView>,
    owner: Seq<char>,
    owner_construct: Seq<char>,
    m: MappingView,
    k: int,
    n: int,
)
    requires
        0 < k <= n <= decls.len(),
        collected_members(decls, owner, owner_construct, m, k) is Err,
    ensures
        collected_members(decls, owner, owner_construct, m, n) == collected_members(decls, owner, owner_construct, m, k),
    decreases n - k,
{
    if k < n {
        lemma_members_error_stays(decls, owner, owner_construct, m, k, n - 1);
    }
}

/// Collects a usage owned by `owner_qualified_name`.
pub fn collect_generic_usage(
    usage: &GenericUsageDecl,
    owner_qualified_name: &str,
    owner_construct: &str,
    mappings: &MappingBundle,
) -> (r: Result<CollectedUsage, Diagnostic>)
    ensures
        match r {
            Ok(c) => collected_usage(usage@, owner_qualified_name@, owner_construct@, mappings@) == Ok::<
                CollectedUsageView,
                Seq<char>,
            >(c@),
            Err(d) => collected_usage(usage@, owner_qualified_name@, owner_construct@, mappings@) == Err::<
                CollectedUsageView,
                Seq<char>,
            >(d.message@),
        },
    decreases usage,
{
    proof {
        lemma_decls_view_index(usage.body_members@);
        reveal_strlit("");
    }
    let construct = mappings.usage_construct_for(usage.keyword.as_str());
    let qualified_name = usage_qualified_name(owner_qualified_name, usage.name.as_str());
    let members = match collect_usage_members(&usage.body_members, qualified_name.as_str(), construct.as_str(), mappings) {
        Ok(ms) => ms,
        Err(d) => {
            return Err(d);
        },
    };
    let rule = mappings.lowering_rule_for_construct(construct.as_str());
    proof {
        assert(rule_for(mappings@, construct@) == match rule {
            Some(r) => Some(*r),
            None => None::<LoweringRule>,
        });
    }
    let ghost rv = rule_for(mappings@, construct@);
    let mut modifiers = clone_strings(&usage.modifiers);
    let mut reference_target = clone_opt_name(&usage.reference_target);
    match rule {
        Some(rule) => {
            match check_rule_fields(rule, true) {
                Ok(()) => {},
                Err(d) => {
                    return Err(d);
                },
            }
            if collects_field(rule, "modifiers", "$ast.modifiers + end") && !strings_contain(
                modifiers.as_slice(),
                "end",
            ) {
                let ghost before = modifiers@;
                modifiers.push(owned("end"));
                proof {
                    assert(strings_view(modifiers@) =~= strings_view(before).push("end"@));
                }
            }
            if collects_field(rule, "reference_target", "$ast.reference_target or $ast.name") && reference_target.is_none()
                && !str_eq(usage.name.as_str(), "") {
                proof {
                    reveal_strlit("");
                }
                let mut segments: Vec<String> = Vec::new();
                segments.push(usage.name.clone());
                let q = QualifiedName { segments, span: usage.span };
                proof {
                    assert(q@.segments =~= seq![usage.name@]);
                    if usage.name@.len() == 0 {
                        assert(usage.name@ =~= ""@);
                    }
                }
                reference_target = Some(q);
            } else {
                proof {
                    if usage.name@.len() == 0 {
                        assert(usage.name@ =~= ""@);
                    }
                }
            }
        },
        None => {},
    }
    let c = CollectedUsage {
        construct,
        owner_construct: owned(owner_construct),
        owner_qualified_name: owned(owner_qualified_name),
        qualified_name,
        declared_name: usage.name.clone(),
        is_implicit_name: usage.is_implicit_name,
        ty: clone_opt_name(&usage.ty),
        additional_types: clone_names(&usage.additional_types),
        reference_target,
        allocation_source: clone_opt_name(&usage.allocation_source),
        allocation_target: clone_opt_name(&usage.allocation_target),
        metadata_properties: usage.metadata_properties.copy(),
        multiplicity: clone_opt_multiplicity(&usage.multiplicity),
        specializes: clone_names(&usage.specializes),
        subsets: clone_names(&usage.subsets),
        redefines: clone_names(&usage.redefines),
        members,
        modifiers,
        docs: clone_strings(&usage.docs),
        span: usage.span,
    };
    Ok(c)
}

/// Collects the usages among `declarations` as members of the element
/// `qualified_name` of construct `construct`.
pub fn collect_usage_members(
    declarations: &Vec<Declaration>,
    qualified_name: &str,
    construct: &str,
    mappings: &MappingBundle,
) -> (r: Result<Vec<CollectedUsage>, Diagnostic>)
    ensures
        match r {
            Ok(v) => collected_members(
                decls_view(declarations@),
                qualified_name@,
                construct@,
                mappings@,
                declarations@.len() as int,
            ) == Ok::<Seq<CollectedUsageView>, Seq<char>>(cusages_view(v@)),
            Err(d) => collected_members(
                decls_view(declarations@),
                qualified_name@,
                construct@,
                mappings@,
                declarations@.len() as int,
            ) == Err::<Seq<CollectedUsageView>, Seq<char>>(d.message@),
        },
    decreases declarations,
{
    let ghost dv = decls_view(declarations@);
    proof {
        lemma_decls_view_index(declarations@);
    }
    let mut usages: Vec<CollectedUsage> = Vec::new();
    let mut i: usize = 0;
    while i < declarations.len()
        invariant
            i <= declarations@.len(),
            dv == decls_view(declarations@),
            dv.len() == declarations@.len(),
            forall|j: int| 0 <= j < declarations@.len() ==> #[trigger] dv[j] == decl_view(declarations@[j]),
            collected_members(dv, qualified_name@, construct@, mappings@, i as int) == Ok::<
                Seq<CollectedUsageView>,
                Seq<char>,
            >(cusages_view(usages@)),
        decreases declarations@.len() - i,
    {
        proof {
            vstd::std_specs::vec::axiom_vec_index_decreases(*declarations, i as int);
        }
        assert(dv[i as int] == decl_view(declarations@[i as int]));
        match &declarations[i] {
            Declaration::GenericUsage(u) => {
                match collect_generic_usage(u, qualified_name, construct, mappings) {
                    Ok(c) => {
                        let ghost before = usages@;
                        usages.push(c);
                        proof {
                            lemma_cusages_view_push(before, c);
                        }
                    },
                    Err(d) => {
                        proof {
                            lemma_members_error_stays(
                                dv,
                                qualified_name@,
                                construct@,
                                mappings@,
                                i + 1,
                                declarations@.len() as int,
                            );
                        }
                        return Err(d);
                    },
                }
            },
            _ => {},
        }
        i = i + 1;
    }
    Ok(usages)
}


/// The zero source span given to names the collect phase makes up.
pub open spec fn zero_span() -> SourceSpan {
    SourceSpan { start_line: 0, start_col: 0, end_line: 0, end_col: 0 }
}

/// The types a definition of `construct` specializes: the explicit ones,
/// else the construct's semantic specializations, each split at `::`.
pub open spec fn default_specializations(construct: Seq<char>, explicit: Seq<QualifiedNameView>, m: MappingView) -> Seq<
    QualifiedNameView,
> {
    if explicit.len() > 0 {
        explicit
    } else {
        opt_strings(lookup(m.definition_semantic_specializations, construct)).map_values(
            |s: Seq<char>| QualifiedNameView { segments: split_on(s, "::"@), span: zero_span() },
        )
    }
}

/// The explicit specializations of a definition of `construct`, or its
/// semantic defaults.
pub fn definition_specializations_with_default(
    construct: &str,
    explicit: &Vec<QualifiedName>,
    mappings: &MappingBundle,
) -> (r: Vec<QualifiedName>)
    ensures
        names_view(r@) == default_specializations(construct@, names_view(explicit@), mappings@),
{
    if explicit.len() > 0 {
        return clone_names(explicit);
    }
    proof {
        reveal_strlit("::");
    }
    let defaults = mappings.semantic_specializations_for_definition(construct);
    let ghost target = default_specializations(construct@, names_view(explicit@), mappings@);
    let mut specializations: Vec<QualifiedName> = Vec::new();
    let mut i: usize = 0;
    while i < defaults.len()
        invariant
            i <= defaults@.len(),
            strings_view(defaults@) == opt_strings(lookup(mappings@.definition_semantic_specializations, construct@)),
            explicit@.len() == 0,
            target == default_specializations(construct@, names_view(explicit@), mappings@),
            specializations@.len() == i,
            forall|j: int| 0 <= j < i ==> #[trigger] specializations@[j]@ == target[j],
        decreases defaults@.len() - i,
    {
        proof {
            reveal_strlit("::");
        }
        let segments = split_str(defaults[i].as_str(), "::");
        let q = QualifiedName { segments, span: SourceSpan { start_line: 0, start_col: 0, end_line: 0, end_col: 0 } };
        proof {
            assert(names_view(explicit@).len() == 0);
            assert(strings_view(defaults@)[i as int] == defaults@[i as int]@);
            assert(q@.segments =~= split_on(defaults@[i as int]@, "::"@));
        }
        specializations.push(q);
        i = i + 1;
    }
    proof {
        assert(names_view(explicit@).len() == 0);
        assert(names_view(specializations@) =~= target);
    }
    specializations
}

/// A collected usage with other modifiers.
pub open spec fn with_modifiers(c: CollectedUsageView, modifiers: Seq<Seq<char>>) -> CollectedUsageView {
    CollectedUsageView {
        construct: c.construct,
        owner_construct: c.owner_construct,
        owner_qualified_name: c.owner_qualified_name,
        qualified_name: c.qualified_name,
        declared_name: c.declared_name,
        is_implicit_name: c.is_implicit_name,
        ty: c.ty,
        additional_types: c.additional_types,
        reference_target: c.reference_target,
        allocation_source: c.allocation_source,
        allocation_target: c.allocation_target,
        metadata_properties: c.metadata_properties,
        multiplicity: c.multiplicity,
        specializes: c.specializes,
        subsets: c.subsets,
        redefines: c.redefines,
        members: c.members,
        modifiers,
        docs: c.docs,
        span: c.span,
    }
}

/// Whether a collected usage is a connection end: a part usage marked `end`.
pub open spec fn is_end_part(c: CollectedUsageView) -> bool {
    c.construct == "PartUsage"@ && c.modifiers.contains("end"@)
}

/// How many of the first `i` members are connection ends.
pub open spec fn end_parts_before(ms: Seq<CollectedUsageView>, i: int) -> nat
    decreases i,
{
    if i <= 0 {
        0
    } else {
        end_parts_before(ms, i - 1) + if is_end_part(ms[i - 1]) {
            1nat
        } else {
            0nat
        }
    }
}

/// The direction of the connection end that comes after `k` others: the
/// first is the source, the rest are targets.
pub open spec fn end_direction(k: nat) -> Seq<char> {
    if k == 0 {
        "end-source"@
    } else {
        "end-target"@
    }
}

/// Member `i`, with its end direction added when it is a connection end.
pub open spec fn annotated_member(ms: Seq<CollectedUsageView>, i: int) -> CollectedUsageView {
    if is_end_part(ms[i]) {
        with_modifiers(ms[i], ms[i].modifiers.push(end_direction(end_parts_before(ms, i))))
    } else {
        ms[i]
    }
}

/// The members of a definition, with end directions added when `annotate`.
pub open spec fn annotated(ms: Seq<CollectedUsageView>, annotate: bool) -> Seq<CollectedUsageView> {
    if annotate {
        Seq::new(ms.len(), |i: int| annotated_member(ms, i))
    } else {
        ms
    }
}

/// Whether the members of a definition of `construct` get end directions.
pub open spec fn annotates_ends(m: MappingView, construct: Seq<char>) -> bool {
    construct == "ConnectionDefinition"@ && has_step(m, construct, "connection-end-direction"@)
}

/// Marks the first connection end among a connection definition's members
/// as the source and the others as targets.
pub fn annotate_connection_definition_members(
    definition_construct: &str,
    members: &mut Vec<CollectedUsage>,
    mappings: &MappingBundle,
)
    ensures
        cusages_view(final(members)@) == annotated(
            cusages_view(old(members)@),
            annotates_ends(mappings@, definition_construct@),
        ),
{
    if !should_annotate_connection_end_direction(mappings, definition_construct) {
        return;
    }
    let ghost ov = cusages_view(old(members)@);
    let mut items: Vec<CollectedUsage> = Vec::new();
    std::mem::swap(&mut items, members);
    let ghost all = items@;
    let total = items.len();
    proof {
        lemma_cusages_view_index(all);
        assert(cusages_view(members@) =~= Seq::<CollectedUsageView>::empty());
    }
    let mut end_index: usize = 0;
    let mut k: usize = 0;
    while items.len() > 0
        invariant
            all.len() == ov.len(),
            all.len() == total,
            ov == cusages_view(all),
            forall|j: int| 0 <= j < all.len() ==> #[trigger] ov[j] == cusage_view(all[j]),
            k + items@.len() == all.len(),
            items@ == all.subrange(k as int, all.len() as int),
            end_index == end_parts_before(ov, k as int),
            end_index <= k,
            cusages_view(members@) == Seq::new(k as nat, |i: int| annotated_member(ov, i)),
        decreases items@.len(),
    {
        let mut member = items.remove(0);
        assert(member == all[k as int]);
        let ghost mv = cusage_view(member);
        let ghost before = members@;
        if str_eq(member.construct.as_str(), "PartUsage") && strings_contain(member.modifiers.as_slice(), "end") {
            let direction = if end_index == 0 {
                "end-source"
            } else {
                "end-target"
            };
            let ghost mods = member.modifiers@;
            member.modifiers.push(owned(direction));
            proof {
                assert(strings_view(member.modifiers@) =~= strings_view(mods).push(end_direction(end_index as nat)));
                assert(cusage_view(member) == with_modifiers(mv, mv.modifiers.push(end_direction(end_index as nat))));
            }
            end_index = end_index + 1;
        }
        members.push(member);
        proof {
            lemma_cusages_view_push(before, member);
            assert(items@ =~= all.subrange(k + 1, all.len() as int));
            assert(cusages_view(members@) =~= Seq::new((k + 1) as nat, |i: int| annotated_member(ov, i)));
        }
        k = k + 1;
    }
    proof {
        assert(cusages_view(members@) =~= annotated(ov, true));
    }
}

/// A definition declared in the package `owner_segments` as collected,
/// or why its rule cannot be executed.
pub open spec fn collected_definition(d: DefinitionView, owner_segments: Seq<Seq<char>>, m: MappingView) -> Result<
    CollectedDefinitionView,
    Seq<char>,
> {
    let construct = definition_construct(m, d.keyword);
    let qualified_name = join_dot(owner_segments.push(d.name));
    let rule = rule_for(m, construct);
    match collected_members(d.members, qualified_name, construct, m, d.members.len() as int) {
        Err(e) => Err(e),
        Ok(members) => match rule_collect_error(rule, false) {
            Some(e) => Err(e),
            None => Ok(
                CollectedDefinitionView {
                    construct,
                    qualified_name,
                    declared_name: d.name,
                    is_abstract: d.modifiers.contains("abstract"@),
                    specializes: if rule_field_is(rule, "specializes"@, "$ast.specializes"@) {
                        d.specializes
                    } else {
                        default_specializations(construct, d.specializes, m)
                    },
                    members: annotated(members, annotates_ends(m, construct)),
                    docs: d.docs,
                    span: d.span,
                },
            ),
        },
    }
}

/// Collects a definition declared in the package `owner_package_segments`.
pub fn collect_generic_definition(
    definition: &GenericDefinitionDecl,
    owner_package_segments: &[String],
    mappings: &MappingBundle,
) -> (r: Result<CollectedDefinition, Diagnostic>)
    ensures
        match r {
            Ok(c) => collected_definition(definition@, strings_view(owner_package_segments@), mappings@) == Ok::<
                CollectedDefinitionView,
                Seq<char>,
            >(c@),
            Err(d) => collected_definition(definition@, strings_view(owner_package_segments@), mappings@) == Err::<
                CollectedDefinitionView,
                Seq<char>,
            >(d.message@),
        },
{
    proof {
        lemma_decls_view_index(definition.members@);
    }
    let qualified_name = qualify_name(owner_package_segments, definition.name.as_str());
    let construct = mappings.definition_construct_for(definition.keyword.as_str());
    let mut members = match collect_usage_members(&definition.members, qualified_name.as_str(), construct.as_str(), mappings) {
        Ok(ms) => ms,
        Err(d) => {
            return Err(d);
        },
    };
    let rule = mappings.lowering_rule_for_construct(construct.as_str());
    proof {
        assert(rule_for(mappings@, construct@) == match rule {
            Some(r) => Some(*r),
            None => None::<LoweringRule>,
        });
    }
    let mut specializes = definition_specializations_with_default(construct.as_str(), &definition.specializes, mappings);
    match rule {
        Some(rule) => {
            match check_rule_fields(rule, false) {
                Ok(()) => {},
                Err(d) => {
                    return Err(d);
                },
            }
            if collects_field(rule, "specializes", "$ast.specializes") {
                specializes = clone_names(&definition.specializes);
            }
        },
        None => {},
    }
    annotate_connection_definition_members(construct.as_str(), &mut members, mappings);
    let is_abstract = strings_contain(definition.modifiers.as_slice(), "abstract");
    Ok(
        CollectedDefinition {
            construct,
            qualified_name,
            declared_name: definition.name.clone(),
            is_abstract,
            specializes,
            members,
            docs: clone_strings(&definition.docs),
            span: definition.span,
        },
    )
}


// ---------------------------------------------------------------- copies

impl CollectedUsage {
    /// A copy of this usage and its members.
    pub fn duplicate(&self) -> (r: CollectedUsage)
        ensures
            r@ == self@,
        decreases self,
    {
        CollectedUsage {
            construct: self.construct.clone(),
            owner_construct: self.owner_construct.clone(),
            owner_qualified_name: self.owner_qualified_name.clone(),
            qualified_name: self.qualified_name.clone(),
            declared_name: self.declared_name.clone(),
            is_implicit_name: self.is_implicit_name,
            ty: clone_opt_name(&self.ty),
            additional_types: clone_names(&self.additional_types),
            reference_target: clone_opt_name(&self.reference_target),
            allocation_source: clone_opt_name(&self.allocation_source),
            allocation_target: clone_opt_name(&self.allocation_target),
            metadata_properties: self.metadata_properties.copy(),
            multiplicity: clone_opt_multiplicity(&self.multiplicity),
            specializes: clone_names(&self.specializes),
            subsets: clone_names(&self.subsets),
            redefines: clone_names(&self.redefines),
            members: clone_usages(&self.members),
            modifiers: clone_strings(&self.modifiers),
            docs: clone_strings(&self.docs),
            span: self.span,
        }
    }
}

/// A copy of a list of usages.
pub fn clone_usages(v: &Vec<CollectedUsage>) -> (r: Vec<CollectedUsage>)
    ensures
        cusages_view(r@) == cusages_view(v@),
    decreases v,
{
    let mut r: Vec<CollectedUsage> = Vec::new();
    let mut i: usize = 0;
    while i < v.len()
        invariant
            i <= v@.len(),
            cusages_view(r@) == cusages_view(v@.subrange(0, i as int)),
        decreases v@.len() - i,
    {
        proof {
            vstd::std_specs::vec::axiom_vec_index_decreases(*v, i as int);
        }
        let u = v[i].duplicate();
        let ghost before = r@;
        r.push(u);
        proof {
            lemma_cusages_view_push(before, u);
            assert(v@.subrange(0, i + 1).drop_last() == v@.subrange(0, i as int));
            assert(v@.subrange(0, i + 1).last() == v@[i as int]);
        }
        i = i + 1;
    }
    assert(v@.subrange(0, v@.len() as int) == v@);
    r
}

impl CollectedDefinition {
    /// A copy of this definition.
    pub fn duplicate(&self) -> (r: CollectedDefinition)
        ensures
            r@ == self@,
    {
        CollectedDefinition {
            construct: self.construct.clone(),
            qualified_name: self.qualified_name.clone(),
            declared_name: self.declared_name.clone(),
            is_abstract: self.is_abstract,
            specializes: clone_names(&self.specializes),
            members: clone_usages(&self.members),
            docs: clone_strings(&self.docs),
            span: self.span,
        }
    }
}

} // verus!
