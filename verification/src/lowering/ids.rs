//! Element ids: each construct's id template, checked against the lowering
//! rules, filled from the element's names and source position.
use vstd::prelude::*;

use crate::kerml::token::Diagnostic;
use crate::lowering::bundle::{MappingBundle, MappingView, first_rule_for_construct, metaclass_of};
use crate::lowering::emit::EmissionRule;
use crate::lowering::emit::direct_child_of;
use crate::lowering::ir::{ResolvedDefinition, ResolvedModule, ResolvedPackage, ResolvedUsage};
use crate::lowering::rules::LoweringRule;
use crate::strmap::{StrMap, has_key, keys_sorted, lemma_sorted_lookup_unique, lookup, str_lookup};
use crate::text::{
    concat2, concat3, decimal, ends_with, is_suffix, last_index, owned, replace_all, replace_str,
    rsplit_once_str, usize_to_string,
};
use crate::text_order::seq_lt;

verus! {

// ------------------------------------------------------------ templates

/// A context of named values, as characters.
pub open spec fn context_view(ctx: Seq<(Seq<char>, String)>) -> Seq<(Seq<char>, Seq<char>)> {
    ctx.map_values(|e: (Seq<char>, String)| (e.0, e.1@))
}

/// `template` with `{key}` replaced by its value for each of the first `n`
/// entries of `ctx`, in order.
pub open spec fn rendered(template: Seq<char>, ctx: Seq<(Seq<char>, Seq<char>)>, n: int) -> Seq<char>
    decreases n,
{
    if n <= 0 {
        template
    } else {
        replace_all(rendered(template, ctx, n - 1), "{"@ + ctx[n - 1].0 + "}"@, ctx[n - 1].1)
    }
}

/// `template` filled from `ctx`: every `{key}` replaced by its value, key
/// by key in the context's order.
pub open spec fn render(template: Seq<char>, ctx: Seq<(Seq<char>, Seq<char>)>) -> Seq<char> {
    rendered(template, ctx, ctx.len() as int)
}

/// Fills `template` from `context`: every `{key}` is replaced by the key's
/// value, key by key in key order.
pub fn render_string(template: &str, context: &StrMap<String>) -> (r: String)
    ensures
        r@ == render(template@, context_view(context@)),
{
    proof {
        reveal_strlit("{");
        reveal_strlit("}");
    }
    let ghost cv = context_view(context@);
    let mut out = owned(template);
    let n = context.len();
    let mut i: usize = 0;
    while i < n
        invariant
            n == context@.len(),
            cv == context_view(context@),
            i <= n,
            out@ == rendered(template@, cv, i as int),
        decreases n - i,
    {
        proof {
            reveal_strlit("{");
            reveal_strlit("}");
        }
        let placeholder = concat3("{", context.key_at(i).as_str(), "}");
        out = replace_str(out.as_str(), placeholder.as_str(), context.value_at(i).as_str());
        i = i + 1;
    }
    out
}

/// The concatenation of `parts`.
pub open spec fn joined(parts: Seq<&str>) -> Seq<char>
    decreases parts.len(),
{
    if parts.len() == 0 {
        Seq::empty()
    } else {
        joined(parts.drop_last()) + parts.last()@
    }
}

/// The concatenation of `parts`.
fn concat_all(parts: &[&str]) -> (r: String)
    ensures
        r@ == joined(parts@),
{
    let mut out = String::new();
    let mut i: usize = 0;
    while i < parts.len()
        invariant
            i <= parts@.len(),
            out@ == joined(parts@.take(i as int)),
        decreases parts@.len() - i,
    {
        assert(parts@.take(i + 1).drop_last() =~= parts@.take(i as int));
        out.append(parts[i]);
        i = i + 1;
    }
    assert(parts@.take(parts@.len() as int) =~= parts@);
    out
}

/// The first of the first `n` properties a rule emits that the emission
/// mapping lacks.
pub open spec fn missing_property(
    rule_props: Seq<(Seq<char>, String)>,
    emission_props: Seq<(Seq<char>, String)>,
    n: int,
) -> Option<Seq<char>>
    decreases n,
{
    if n <= 0 {
        None
    } else {
        match missing_property(rule_props, emission_props, n - 1) {
            Some(p) => Some(p),
            None => if has_key(emission_props, rule_props[n - 1].0) {
                None
            } else {
                Some(rule_props[n - 1].0)
            },
        }
    }
}

/// Why lowering rule `rule` does not fit the emission mapping `e` of
/// metaclass `metaclass`, if it does not: another metaclass, another id
/// template, or a property the mapping lacks.
pub open spec fn compat_error(rule: LoweringRule, metaclass: Seq<char>, e: EmissionRule) -> Option<Seq<char>> {
    let c = rule.construct@;
    if rule.metaclass@ != metaclass {
        Some("lowering rule `"@ + c + "` targets `"@ + rule.metaclass@ + "` but active mapping uses `"@ + metaclass + "`"@)
    } else if rule.emit.id_template@ != e.id_template@ {
        Some(
            "lowering rule `"@ + c + "` id template `"@ + rule.emit.id_template@ + "` does not match emission template `"@
                + e.id_template@ + "`"@,
        )
    } else {
        match missing_property(rule.emit.properties@, e.emit.properties@, rule.emit.properties@.len() as int) {
            Some(p) => Some(
                "lowering rule `"@ + c + "` emits property `"@ + p + "` missing from active emission mapping `"@
                    + metaclass + "`"@,
            ),
            None => None,
        }
    }
}

/// Checks that lowering rule `rule` fits the emission mapping of
/// `metaclass`.
pub fn validate_rule_emission_compatibility(rule: &LoweringRule, metaclass: &str, emission: &EmissionRule) -> (r:
    Result<(), Diagnostic>)
    ensures
        match r {
            Ok(()) => compat_error(*rule, metaclass@, *emission) is None,
            Err(d) => compat_error(*rule, metaclass@, *emission) == Some(d.message@) && d.span is None,
        },
{
    let c = rule.construct.as_str();
    if !crate::text::str_eq(rule.metaclass.as_str(), metaclass) {
        let m = concat_all(
            &["lowering rule `", c, "` targets `", rule.metaclass.as_str(), "` but active mapping uses `", metaclass, "`"],
        );
        proof {
            reveal_with_fuel(joined, 8);
            assert(m@ =~= "lowering rule `"@ + c@ + "` targets `"@ + rule.metaclass@ + "` but active mapping uses `"@
                + metaclass@ + "`"@);
        }
        return Err(Diagnostic::new(m.as_str(), None));
    }
    if !crate::text::str_eq(rule.emit.id_template.as_str(), emission.id_template.as_str()) {
        let m = concat_all(
            &[
                "lowering rule `",
                c,
                "` id template `",
                rule.emit.id_template.as_str(),
                "` does not match emission template `",
                emission.id_template.as_str(),
                "`",
            ],
        );
        proof {
            reveal_with_fuel(joined, 8);
            assert(m@ =~= "lowering rule `"@ + c@ + "` id template `"@ + rule.emit.id_template@
                + "` does not match emission template `"@ + emission.id_template@ + "`"@);
        }
        return Err(Diagnostic::new(m.as_str(), None));
    }
    let props = &rule.emit.properties;
    let n = props.len();
    let mut i: usize = 0;
    while i < n
        invariant
            n == props@.len(),
            i <= n,
            props@ == rule.emit.properties@,
            c@ == rule.construct@,
            rule.metaclass@ == metaclass@,
            rule.emit.id_template@ == emission.id_template@,
            missing_property(props@, emission.emit.properties@, i as int) is None,
        decreases n - i,
    {
        if !emission.emit.properties.contains_key(props.key_at(i).as_str()) {
            let m = concat_all(
                &[
                    "lowering rule `",
                    c,
                    "` emits property `",
                    props.key_at(i).as_str(),
                    "` missing from active emission mapping `",
                    metaclass,
                    "`",
                ],
            );
            proof {
                reveal_with_fuel(joined, 8);
                assert(m@ =~= "lowering rule `"@ + c@ + "` emits property `"@ + props@[i as int].0
                    + "` missing from active emission mapping `"@ + metaclass@ + "`"@);
                lemma_missing_property_stays(props@, emission.emit.properties@, i as int + 1, n as int);
            }
            return Err(Diagnostic::new(m.as_str(), None));
        }
        i = i + 1;
    }
    Ok(())
}

proof fn lemma_missing_property_stays(
    rule_props: Seq<(Seq<char>, String)>,
    emission_props: Seq<(Seq<char>, String)>,
    m: int,
    n: int,
)
    requires
        0 < m <= n,
        missing_property(rule_props, emission_props, m) is Some,
    ensures
        missing_property(rule_props, emission_props, n) == missing_property(rule_props, emission_props, m),
    decreases n,
{
    if n > m {
        lemma_missing_property_stays(rule_props, emission_props, m, n - 1);
    }
}

/// The lowering rule of `construct`, if the mapping has rules.
pub open spec fn rule_for(v: MappingView, construct: Seq<char>) -> Option<LoweringRule> {
    match v.rules {
        Some(rs) => first_rule_for_construct(rs, construct),
        None => None,
    }
}

/// The id template of `construct` with metaclass `metaclass` and emission
/// mapping `e`: its lowering rule's, when it has one that fits the
/// mapping, else the mapping's; an error when the rule does not fit.
pub open spec fn construct_template(v: MappingView, construct: Seq<char>, metaclass: Seq<char>, e: EmissionRule) -> Result<
    Seq<char>,
    Seq<char>,
> {
    match rule_for(v, construct) {
        Some(rule) => match compat_error(rule, metaclass, e) {
            Some(msg) => Err(msg),
            None => Ok(rule.emit.id_template@),
        },
        None => Ok(e.id_template@),
    }
}

/// The id template of `construct`: as `construct_template`, after finding
/// its metaclass and that metaclass's emission mapping.
pub open spec fn template_for(v: MappingView, construct: Seq<char>) -> Result<Seq<char>, Seq<char>> {
    match metaclass_of(v, construct) {
        None => Err("missing construct mapping `"@ + construct + "`"@),
        Some(m) => match lookup(v.emission, m) {
            None => Err("missing emission mapping `"@ + m + "`"@),
            Some(e) => construct_template(v, construct, m, e),
        },
    }
}

/// A result as characters, an error by its message.
pub open spec fn result_view(r: Result<String, Diagnostic>) -> Result<Seq<char>, Seq<char>> {
    match r {
        Ok(s) => Ok(s@),
        Err(d) => Err(d.message@),
    }
}

/// The id template of `construct`, whose metaclass is `metaclass` with
/// emission mapping `emission`.
pub fn id_template_for_construct<'a>(
    construct: &str,
    metaclass: &str,
    emission: &'a EmissionRule,
    mappings: &'a MappingBundle,
) -> (r: Result<&'a str, Diagnostic>)
    ensures
        match r {
            Ok(t) => construct_template(mappings@, construct@, metaclass@, *emission) == Ok::<Seq<char>, Seq<char>>(t@),
            Err(d) => construct_template(mappings@, construct@, metaclass@, *emission) == Err::<Seq<char>, Seq<char>>(
                d.message@,
            ) && d.span is None,
        },
{
    match mappings.lowering_rule_for_construct(construct) {
        Some(rule) => {
            match validate_rule_emission_compatibility(rule, metaclass, emission) {
                Ok(()) => Ok(rule.emit.id_template.as_str()),
                Err(d) => Err(d),
            }
        },
        None => {
            proof {
                if mappings@.rules is Some {
                    assert(rule_for(mappings@, construct@) is None);
                }
            }
            Ok(emission.id_template.as_str())
        },
    }
}

/// The id template of `construct`.
pub fn template_for_construct<'a>(construct: &str, mappings: &'a MappingBundle) -> (r: Result<&'a str, Diagnostic>)
    ensures
        match r {
            Ok(t) => template_for(mappings@, construct@) == Ok::<Seq<char>, Seq<char>>(t@),
            Err(d) => template_for(mappings@, construct@) == Err::<Seq<char>, Seq<char>>(d.message@) && d.span is None,
        },
{
    let metaclass = match mappings.metaclass_for(construct) {
        Ok(m) => m,
        Err(d) => {
            return Err(d);
        },
    };
    let emission = match mappings.emission_for(metaclass) {
        Ok(e) => e,
        Err(d) => {
            return Err(d);
        },
    };
    id_template_for_construct(construct, metaclass, emission, mappings)
}

// ------------------------------------------------------------ packages and definitions

/// The context that names an element by its qualified name.
pub open spec fn qualified_name_context(qualified_name: Seq<char>) -> Seq<(Seq<char>, Seq<char>)> {
    seq![("qualified_name"@, qualified_name)]
}

/// The id of the element of `construct` with `qualified_name`.
pub open spec fn qualified_id(v: MappingView, construct: Seq<char>, qualified_name: Seq<char>) -> Result<Seq<char>, Seq<char>> {
    match template_for(v, construct) {
        Ok(t) => Ok(render(t, qualified_name_context(qualified_name))),
        Err(m) => Err(m),
    }
}

/// Fills `template` with a qualified name.
fn render_qualified(template: &str, qualified_name: &str) -> (r: String)
    ensures
        r@ == render(template@, qualified_name_context(qualified_name@)),
{
    let mut context: StrMap<String> = StrMap::new();
    context.insert(owned("qualified_name"), owned(qualified_name));
    proof {
        assert(context_view(context@) =~= qualified_name_context(qualified_name@)) by {
            assert(context@.len() == 1) by {
                assert(has_key(context@, "qualified_name"@)) by {
                    assert(lookup(context@, "qualified_name"@) is Some);
                }
                if context@.len() > 1 {
                    let k0 = context@[0].0;
                    let k1 = context@[1].0;
                    assert(has_key(context@, k0));
                    assert(has_key(context@, k1));
                    assert(lookup(context@, k0) is Some);
                    assert(lookup(context@, k1) is Some);
                    crate::text_order::lemma_seq_lt_irreflexive(k0);
                }
            }
            assert(lookup(context@, "qualified_name"@) is Some);
            assert(context@[0].0 == "qualified_name"@) by {
                let k0 = context@[0].0;
                assert(has_key(context@, k0));
                assert(lookup(context@, k0) is Some);
            }
            crate::strmap::lemma_lookup_at(context@, 0);
        }
    }
    render_string(template, &context)
}

/// The id of a package.
pub fn render_package_id(package: &ResolvedPackage, mappings: &MappingBundle) -> (r: Result<String, Diagnostic>)
    ensures
        result_view(r) == qualified_id(mappings@, "Package"@, package.qualified_name@),
        r is Err ==> r->Err_0.span is None,
{
    match template_for_construct("Package", mappings) {
        Ok(t) => Ok(render_qualified(t, package.qualified_name.as_str())),
        Err(d) => Err(d),
    }
}

/// The id of a definition.
pub fn render_definition_id(definition: &ResolvedDefinition, mappings: &MappingBundle) -> (r: Result<
    String,
    Diagnostic,
>)
    ensures
        result_view(r) == qualified_id(mappings@, definition.construct@, definition.qualified_name@),
        r is Err ==> r->Err_0.span is None,
{
    match template_for_construct(definition.construct.as_str(), mappings) {
        Ok(t) => Ok(render_qualified(t, definition.qualified_name.as_str())),
        Err(d) => Err(d),
    }
}

/// The id of the package that owns a definition: the package named by the
/// part of its qualified name before the last `.`, if there is one.
pub fn definition_owner_id(definition: &ResolvedDefinition, mappings: &MappingBundle) -> (r: Result<
    Option<String>,
    Diagnostic,
>)
    ensures
        match last_index(definition.qualified_name@, "."@) {
            None => r == Ok::<Option<String>, Diagnostic>(None),
            Some(i) => match r {
                Ok(Some(s)) => qualified_id(mappings@, "Package"@, definition.qualified_name@.take(i)) == Ok::<
                    Seq<char>,
                    Seq<char>,
                >(s@),
                Ok(None) => false,
                Err(d) => qualified_id(mappings@, "Package"@, definition.qualified_name@.take(i)) == Err::<
                    Seq<char>,
                    Seq<char>,
                >(d.message@) && d.span is None,
            },
        },
{
    match rsplit_once_str(definition.qualified_name.as_str(), ".") {
        None => Ok(None),
        Some((owner, _)) => match template_for_construct("Package", mappings) {
            Ok(t) => Ok(Some(render_qualified(t, owner.as_str()))),
            Err(d) => Err(d),
        },
    }
}

/// The id of the package that owns a usage: `pkg.root` at the root, else
/// the owner's id among `package_ids`, else `pkg.` and the owner's name.
pub open spec fn package_owner(owner: Seq<char>, package_ids: Seq<(Seq<char>, String)>) -> Seq<char> {
    if owner == "root"@ {
        "pkg.root"@
    } else {
        match str_lookup(package_ids, owner) {
            Some(id) => id,
            None => "pkg."@ + owner,
        }
    }
}

/// The id of the package that owns a usage.
pub fn package_owner_id(usage: &ResolvedUsage, package_ids: &StrMap<String>) -> (r: String)
    ensures
        r@ == package_owner(usage.owner_qualified_name@, package_ids@),
{
    if crate::text::str_eq(usage.owner_qualified_name.as_str(), "root") {
        owned("pkg.root")
    } else {
        match package_ids.get(usage.owner_qualified_name.as_str()) {
            Some(id) => owned(id.as_str()),
            None => concat2("pkg.", usage.owner_qualified_name.as_str()),
        }
    }
}


// ------------------------------------------------------------ usages

/// A context given as pairs, as characters.
pub open spec fn pairs_view(ctx: Seq<(&str, &str)>) -> Seq<(Seq<char>, Seq<char>)> {
    ctx.map_values(|e: (&str, &str)| (e.0@, e.1@))
}

/// Fills `template` from a context given as pairs in key order.
fn render_pairs(template: &str, context: &[(&str, &str)]) -> (r: String)
    ensures
        r@ == render(template@, pairs_view(context@)),
{
    let ghost cv = pairs_view(context@);
    let mut out = owned(template);
    let mut i: usize = 0;
    while i < context.len()
        invariant
            cv == pairs_view(context@),
            i <= context@.len(),
            out@ == rendered(template@, cv, i as int),
        decreases context@.len() - i,
    {
        proof {
            reveal_strlit("{");
            reveal_strlit("}");
        }
        let (key, value) = context[i];
        let placeholder = concat3("{", key, "}");
        out = replace_str(out.as_str(), placeholder.as_str(), value);
        i = i + 1;
    }
    out
}

/// The context a usage's id is filled from, in key order.
pub open spec fn usage_context(
    declared_name: Seq<char>,
    owner_id: Seq<char>,
    owner_path: Seq<char>,
    start_col: nat,
    start_line: nat,
) -> Seq<(Seq<char>, Seq<char>)> {
    seq![
        ("declared_name"@, declared_name),
        ("owner_id"@, owner_id),
        ("owner_path"@, owner_path),
        ("start_col"@, decimal(start_col)),
        ("start_line"@, decimal(start_line)),
    ]
}

/// The keys of a usage's id context are in increasing order, as in the
/// ordered maps that contexts are.
pub proof fn lemma_usage_context_in_key_order(
    declared_name: Seq<char>,
    owner_id: Seq<char>,
    owner_path: Seq<char>,
    start_col: nat,
    start_line: nat,
)
    ensures
        forall|i: int, j: int|
            0 <= i < j < 5 ==> seq_lt(
                #[trigger] usage_context(declared_name, owner_id, owner_path, start_col, start_line)[i].0,
                #[trigger] usage_context(declared_name, owner_id, owner_path, start_col, start_line)[j].0,
            ),
{
    reveal_strlit("owner_id");
    reveal_strlit("owner_path");
    reveal_strlit("declared_name");
    reveal_strlit("start_col");
    reveal_strlit("start_line");
    let c = usage_context(declared_name, owner_id, owner_path, start_col, start_line);
    assert(seq_lt("declared_name"@, "owner_id"@));
    assert(seq_lt("owner_id"@, "owner_path"@)) by {
        reveal_with_fuel(seq_lt, 8);
    }
    assert(seq_lt("owner_path"@, "start_col"@));
    assert(seq_lt("start_col"@, "start_line"@)) by {
        reveal_with_fuel(seq_lt, 8);
    }
    let k = seq![c[0].0, c[1].0, c[2].0, c[3].0, c[4].0];
    crate::text_order::lemma_seq_lt_transitive(k[0], k[1], k[2]);
    crate::text_order::lemma_seq_lt_transitive(k[1], k[2], k[3]);
    crate::text_order::lemma_seq_lt_transitive(k[2], k[3], k[4]);
    crate::text_order::lemma_seq_lt_transitive(k[0], k[2], k[3]);
    crate::text_order::lemma_seq_lt_transitive(k[1], k[3], k[4]);
    crate::text_order::lemma_seq_lt_transitive(k[0], k[3], k[4]);
    assert forall|i: int, j: int| 0 <= i < j < 5 implies seq_lt(#[trigger] c[i].0, #[trigger] c[j].0) by {
        assert(c[i].0 == k[i] && c[j].0 == k[j]);
    }
}

/// Whether the mapping asks for a usage's source position to be added to
/// its id when the id does not end with its column.
pub open spec fn appends_location(v: MappingView, u: ResolvedUsage) -> bool {
    lookup(v.semantic_defaults.usage_id_policies@, u.construct@) matches Some(p)
        && p.append_source_location_if_missing_start_col
}

/// The source position suffix of a usage's id: `.line_col`.
pub open spec fn location_suffix(u: ResolvedUsage) -> Seq<char> {
    "."@ + decimal(u.span.start_line as nat) + "_"@ + decimal(u.span.start_col as nat)
}

/// The id of usage `u` owned by `owner_id`: its construct's template filled
/// from its names and position, with its position appended when the
/// mapping asks for it and the id does not end with `.col`.
pub open spec fn usage_id(v: MappingView, u: ResolvedUsage, owner_id: Seq<char>) -> Result<Seq<char>, Seq<char>> {
    match template_for(v, u.construct@) {
        Err(m) => Err(m),
        Ok(t) => {
            let col = decimal(u.span.start_col as nat);
            let id = render(
                t,
                usage_context(u.declared_name@, owner_id, u.owner_qualified_name@, u.span.start_col as nat, u.span.start_line as nat),
            );
            Ok(
                if appends_location(v, u) && !is_suffix("."@ + col, id) {
                    id + location_suffix(u)
                } else {
                    id
                },
            )
        },
    }
}

/// The id of a usage owned by `owner_id`.
pub fn render_usage_id(usage: &ResolvedUsage, owner_id: &str, mappings: &MappingBundle) -> (r: Result<String, Diagnostic>)
    ensures
        result_view(r) == usage_id(mappings@, *usage, owner_id@),
        r is Err ==> r->Err_0.span is None,
{
    let t = match template_for_construct(usage.construct.as_str(), mappings) {
        Ok(t) => t,
        Err(d) => {
            return Err(d);
        },
    };
    let col = usize_to_string(usage.span.start_col);
    let line = usize_to_string(usage.span.start_line);
    let context = [
        ("declared_name", usage.declared_name.as_str()),
        ("owner_id", owner_id),
        ("owner_path", usage.owner_qualified_name.as_str()),
        ("start_col", col.as_str()),
        ("start_line", line.as_str()),
    ];
    let id = render_pairs(t, &context);
    proof {
        assert(pairs_view(context@) =~= usage_context(
            usage.declared_name@,
            owner_id@,
            usage.owner_qualified_name@,
            usage.span.start_col as nat,
            usage.span.start_line as nat,
        ));
    }
    let dotted_col = concat2(".", col.as_str());
    if mappings.usage_appends_source_location_if_missing_start_col(usage) && !ends_with(
        id.as_str(),
        dotted_col.as_str(),
    ) {
        let full = concat_all(&[id.as_str(), ".", line.as_str(), "_", col.as_str()]);
        proof {
            reveal_with_fuel(joined, 6);
            assert(full@ =~= id@ + location_suffix(*usage));
        }
        Ok(full)
    } else {
        Ok(id)
    }
}

/// The ids of the first `n` usages, or the first error.
pub open spec fn usage_ids_upto(v: MappingView, us: Seq<ResolvedUsage>, owner_id: Seq<char>, n: int) -> Result<
    Seq<Seq<char>>,
    Seq<char>,
>
    decreases n,
{
    if n <= 0 {
        Ok(Seq::empty())
    } else {
        match usage_ids_upto(v, us, owner_id, n - 1) {
            Err(m) => Err(m),
            Ok(ids) => match usage_id(v, us[n - 1], owner_id) {
                Err(m) => Err(m),
                Ok(id) => Ok(ids.push(id)),
            },
        }
    }
}

/// How often `x` occurs among the first `n` of `ids`.
pub open spec fn occurrences(ids: Seq<Seq<char>>, x: Seq<char>, n: int) -> nat
    decreases n,
{
    if n <= 0 {
        0
    } else {
        occurrences(ids, x, n - 1) + if ids[n - 1] == x {
            1nat
        } else {
            0nat
        }
    }
}

/// The ids of sibling usages: each usage's id, with its source position
/// appended where two siblings would share it.
pub open spec fn sibling_ids(v: MappingView, us: Seq<ResolvedUsage>, owner_id: Seq<char>) -> Result<
    Seq<Seq<char>>,
    Seq<char>,
> {
    match usage_ids_upto(v, us, owner_id, us.len() as int) {
        Err(m) => Err(m),
        Ok(b) => Ok(
            Seq::new(
                b.len(),
                |i: int|
                    if occurrences(b, b[i], b.len() as int) <= 1 {
                        b[i]
                    } else {
                        b[i] + location_suffix(us[i])
                    },
            ),
        ),
    }
}

/// A list of results as characters, an error by its message.
pub open spec fn ids_result_view(r: Result<Vec<String>, Diagnostic>) -> Result<Seq<Seq<char>>, Seq<char>> {
    match r {
        Ok(v) => Ok(crate::kerml::ast::strings_view(v@)),
        Err(d) => Err(d.message@),
    }
}

/// The ids of usages owned by `owner_id`, in order.
fn render_usage_ids(usages: &[ResolvedUsage], owner_id: &str, mappings: &MappingBundle) -> (r: Result<
    Vec<String>,
    Diagnostic,
>)
    ensures
        ids_result_view(r) == usage_ids_upto(mappings@, usages@, owner_id@, usages@.len() as int),
        r is Ok ==> r->Ok_0@.len() == usages@.len(),
        r is Err ==> r->Err_0.span is None,
{
    let mut ids: Vec<String> = Vec::new();
    let mut i: usize = 0;
    assert(crate::kerml::ast::strings_view(ids@) =~= Seq::<Seq<char>>::empty());
    while i < usages.len()
        invariant
            i <= usages@.len(),
            ids@.len() == i,
            usage_ids_upto(mappings@, usages@, owner_id@, i as int) == Ok::<Seq<Seq<char>>, Seq<char>>(
                crate::kerml::ast::strings_view(ids@),
            ),
        decreases usages@.len() - i,
    {
        match render_usage_id(&usages[i], owner_id, mappings) {
            Ok(id) => {
                let ghost before = crate::kerml::ast::strings_view(ids@);
                ids.push(id);
                proof {
                    assert(crate::kerml::ast::strings_view(ids@) =~= before.push(id@));
                }
            },
            Err(d) => {
                proof {
                    lemma_usage_ids_error_stays(mappings@, usages@, owner_id@, i as int + 1, usages@.len() as int);
                }
                return Err(d);
            },
        }
        i = i + 1;
    }
    Ok(ids)
}

proof fn lemma_usage_ids_error_stays(v: MappingView, us: Seq<ResolvedUsage>, owner_id: Seq<char>, m: int, n: int)
    requires
        0 < m <= n,
        usage_ids_upto(v, us, owner_id, m) is Err,
    ensures
        usage_ids_upto(v, us, owner_id, n) == usage_ids_upto(v, us, owner_id, m),
    decreases n,
{
    if n > m {
        lemma_usage_ids_error_stays(v, us, owner_id, m, n - 1);
    }
}

proof fn lemma_occurrences_positive(ids: Seq<Seq<char>>, j: int, n: int)
    requires
        0 <= j < n <= ids.len(),
    ensures
        occurrences(ids, ids[j], n) > 0,
    decreases n,
{
    if n > j + 1 {
        lemma_occurrences_positive(ids, j, n - 1);
    }
}

proof fn lemma_usage_ids_len(v: MappingView, us: Seq<ResolvedUsage>, owner_id: Seq<char>, n: int)
    requires
        0 <= n,
    ensures
        usage_ids_upto(v, us, owner_id, n) matches Ok(ids) ==> ids.len() == n,
    decreases n,
{
    if n > 0 {
        lemma_usage_ids_len(v, us, owner_id, n - 1);
    }
}

proof fn lemma_occurrences_bound(ids: Seq<Seq<char>>, x: Seq<char>, n: int)
    requires
        0 <= n,
    ensures
        occurrences(ids, x, n) <= n,
    decreases n,
{
    if n > 0 {
        lemma_occurrences_bound(ids, x, n - 1);
    }
}

/// The ids of sibling usages owned by `owner_id`: where two would share
/// an id, each gets its source position appended.
pub fn render_sibling_usage_ids(usages: &[ResolvedUsage], owner_id: &str, mappings: &MappingBundle) -> (r: Result<
    Vec<String>,
    Diagnostic,
>)
    ensures
        ids_result_view(r) == sibling_ids(mappings@, usages@, owner_id@),
        r is Err ==> r->Err_0.span is None,
{
    let base = match render_usage_ids(usages, owner_id, mappings) {
        Ok(b) => b,
        Err(d) => {
            return Err(d);
        },
    };
    let ghost b = crate::kerml::ast::strings_view(base@);
    let mut counts: StrMap<usize> = StrMap::new();
    let mut i: usize = 0;
    while i < base.len()
        invariant
            i <= base@.len(),
            b == crate::kerml::ast::strings_view(base@),
            forall|x: Seq<char>| #[trigger]
                lookup(counts@, x) == if occurrences(b, x, i as int) > 0 {
                    Some(occurrences(b, x, i as int) as usize)
                } else {
                    None
                },
        decreases base@.len() - i,
    {
        let key = base[i].as_str();
        let ghost c0 = counts@;
        proof {
            lemma_occurrences_bound(b, key@, i as int);
        }
        let current: usize = match counts.get(key) {
            Some(c) => *c,
            None => 0,
        };
        counts.insert(owned(key), current + 1);
        i = i + 1;
        proof {
            assert forall|x: Seq<char>| #[trigger]
                lookup(counts@, x) == if occurrences(b, x, i as int) > 0 {
                    Some(occurrences(b, x, i as int) as usize)
                } else {
                    None
                } by {
                assert(lookup(c0, x) == if occurrences(b, x, i - 1) > 0 {
                    Some(occurrences(b, x, i - 1) as usize)
                } else {
                    None
                });
                assert(b[i - 1] == key@);
            }
        }
    }
    let mut ids: Vec<String> = Vec::new();
    let mut j: usize = 0;
    while j < base.len()
        invariant
            j <= base@.len(),
            base@.len() == usages@.len(),
            b == crate::kerml::ast::strings_view(base@),
            forall|x: Seq<char>| #[trigger]
                lookup(counts@, x) == if occurrences(b, x, b.len() as int) > 0 {
                    Some(occurrences(b, x, b.len() as int) as usize)
                } else {
                    None
                },
            ids@.len() == j,
            forall|k: int| 0 <= k < j ==> (#[trigger] ids@[k])@ == (if occurrences(b, b[k], b.len() as int) <= 1 {
                b[k]
            } else {
                b[k] + location_suffix(usages@[k])
            }),
        decreases base@.len() - j,
    {
        let key = base[j].as_str();
        proof {
            lemma_occurrences_bound(b, key@, b.len() as int);
            assert(b[j as int] == key@);
            lemma_occurrences_positive(b, j as int, b.len() as int);
        }
        let many = match counts.get(key) {
            Some(c) => *c > 1,
            None => false,
        };
        if many {
            let line = usize_to_string(usages[j].span.start_line);
            let col = usize_to_string(usages[j].span.start_col);
            let full = concat_all(&[key, ".", line.as_str(), "_", col.as_str()]);
            proof {
                reveal_with_fuel(joined, 6);
                assert(full@ =~= key@ + location_suffix(usages@[j as int]));
            }
            ids.push(full);
        } else {
            ids.push(owned(key));
        }
        j = j + 1;
    }
    proof {
        assert(crate::kerml::ast::strings_view(ids@) =~= sibling_ids(mappings@, usages@, owner_id@)->Ok_0);
    }
    Ok(ids)
}

/// The ids of the usages that count as owned members, among `usages`
/// owned by `owner_id`, with sibling ids told apart when asked.
pub open spec fn owned_usage_ids(
    v: MappingView,
    us: Seq<ResolvedUsage>,
    owner_id: Seq<char>,
    disambiguate: bool,
) -> Result<Seq<Seq<char>>, Seq<char>> {
    let all = if disambiguate {
        sibling_ids(v, us, owner_id)
    } else {
        usage_ids_upto(v, us, owner_id, us.len() as int)
    };
    match all {
        Err(m) => Err(m),
        Ok(ids) => Ok(owned_only(v, us, ids, us.len() as int)),
    }
}

/// The ids of the first `n` usages that count as owned members.
pub open spec fn owned_only(v: MappingView, us: Seq<ResolvedUsage>, ids: Seq<Seq<char>>, n: int) -> Seq<Seq<char>>
    decreases n,
{
    if n <= 0 {
        Seq::empty()
    } else if !crate::kerml::ast::strings_view(v.semantic_defaults.usage_context.non_owned_member_constructs@).contains(
        us[n - 1].construct@,
    ) {
        owned_only(v, us, ids, n - 1).push(ids[n - 1])
    } else {
        owned_only(v, us, ids, n - 1)
    }
}

/// The ids of the usages owned by `owner_id` that count as owned members.
pub fn render_owned_usage_tree_ids(
    usages: &[ResolvedUsage],
    owner_id: &str,
    mappings: &MappingBundle,
    disambiguate_siblings: bool,
) -> (r: Result<Vec<String>, Diagnostic>)
    ensures
        ids_result_view(r) == owned_usage_ids(mappings@, usages@, owner_id@, disambiguate_siblings),
        r is Err ==> r->Err_0.span is None,
{
    let rendered = if disambiguate_siblings {
        render_sibling_usage_ids(usages, owner_id, mappings)
    } else {
        render_usage_ids(usages, owner_id, mappings)
    };
    let all = match rendered {
        Ok(a) => a,
        Err(d) => {
            return Err(d);
        },
    };
    let ghost av = crate::kerml::ast::strings_view(all@);
    proof {
        lemma_usage_ids_len(mappings@, usages@, owner_id@, usages@.len() as int);
    }
    let mut ids: Vec<String> = Vec::new();
    let mut i: usize = 0;
    while i < usages.len() && i < all.len()
        invariant
            i <= usages@.len(),
            av == crate::kerml::ast::strings_view(all@),
            av.len() == usages@.len(),
            crate::kerml::ast::strings_view(ids@) == owned_only(mappings@, usages@, av, i as int),
        decreases usages@.len() - i,
    {
        if mappings.usage_counts_as_owned_member(&usages[i]) {
            let ghost before = crate::kerml::ast::strings_view(ids@);
            ids.push(owned(all[i].as_str()));
            proof {
                assert(crate::kerml::ast::strings_view(ids@) =~= before.push(av[i as int]));
            }
        }
        i = i + 1;
    }
    Ok(ids)
}

// ------------------------------------------------------------ companions and members

/// The id of the companion a definition generates (a conjugated port
/// definition): its companion construct's template filled from the
/// definition's names.
pub open spec fn companion_id(v: MappingView, d: ResolvedDefinition) -> Result<Seq<char>, Seq<char>> {
    match lookup(v.semantic_defaults.definition_companion_policies@, d.construct@) {
        Some(p) => match p.generated_companion_construct {
            Some(c) => match template_for(v, c@) {
                Ok(t) => Ok(render(t, seq![("declared_name"@, d.declared_name@), ("qualified_name"@, d.qualified_name@)])),
                Err(m) => Err(m),
            },
            None => Err("definition `"@ + d.construct@ + "` has no generated companion construct"@),
        },
        None => Err("definition `"@ + d.construct@ + "` has no generated companion construct"@),
    }
}

/// The id of the companion a definition generates.
pub fn render_conjugated_port_definition_id(definition: &ResolvedDefinition, mappings: &MappingBundle) -> (r: Result<
    String,
    Diagnostic,
>)
    ensures
        result_view(r) == companion_id(mappings@, *definition),
{
    let companion = match mappings.generated_companion_construct_for_definition(definition.construct.as_str()) {
        Some(c) => c,
        None => {
            let m = concat3("definition `", definition.construct.as_str(), "` has no generated companion construct");
            return Err(Diagnostic::new(m.as_str(), Some(definition.span)));
        },
    };
    let t = match template_for_construct(companion, mappings) {
        Ok(t) => t,
        Err(d) => {
            return Err(d);
        },
    };
    let context = [("declared_name", definition.declared_name.as_str()), ("qualified_name", definition.qualified_name.as_str())];
    let id = render_pairs(t, &context);
    proof {
        assert(pairs_view(context@) =~= seq![
            ("declared_name"@, definition.declared_name@),
            ("qualified_name"@, definition.qualified_name@),
        ]);
    }
    Ok(id)
}


/// The ids, among `ids`, of the first `n` packages that are direct
/// children of `parent`.
pub open spec fn child_package_ids(pkgs: Seq<ResolvedPackage>, parent: Seq<char>, ids: Seq<(Seq<char>, String)>, n: int) -> Seq<
    Seq<char>,
>
    decreases n,
{
    if n <= 0 {
        Seq::empty()
    } else {
        let q = pkgs[n - 1].qualified_name@;
        let rest = child_package_ids(pkgs, parent, ids, n - 1);
        if direct_child_of(q, parent) && str_lookup(ids, q) is Some {
            rest.push(str_lookup(ids, q)->Some_0)
        } else {
            rest
        }
    }
}

/// The ids, among `ids`, of the first `n` definitions that are direct
/// children of `parent`.
pub open spec fn child_definition_ids(
    defs: Seq<ResolvedDefinition>,
    parent: Seq<char>,
    ids: Seq<(Seq<char>, String)>,
    n: int,
) -> Seq<Seq<char>>
    decreases n,
{
    if n <= 0 {
        Seq::empty()
    } else {
        let q = defs[n - 1].qualified_name@;
        let rest = child_definition_ids(defs, parent, ids, n - 1);
        if direct_child_of(q, parent) && str_lookup(ids, q) is Some {
            rest.push(str_lookup(ids, q)->Some_0)
        } else {
            rest
        }
    }
}

/// The ids, among `ids`, of the first `n` usages that count as owned
/// members and are direct children of `parent`.
pub open spec fn child_usage_ids(
    v: MappingView,
    us: Seq<ResolvedUsage>,
    parent: Seq<char>,
    ids: Seq<(Seq<char>, String)>,
    n: int,
) -> Seq<Seq<char>>
    decreases n,
{
    if n <= 0 {
        Seq::empty()
    } else {
        let u = us[n - 1];
        let q = u.qualified_name@;
        let rest = child_usage_ids(v, us, parent, ids, n - 1);
        if !crate::kerml::ast::strings_view(v.semantic_defaults.usage_context.non_owned_member_constructs@).contains(
            u.construct@,
        ) && direct_child_of(q, parent) && str_lookup(ids, q) is Some {
            rest.push(str_lookup(ids, q)->Some_0)
        } else {
            rest
        }
    }
}

/// The member ids of package `parent`: its child packages, then its
/// definitions, then the usages it owns.
pub open spec fn package_member_ids(
    v: MappingView,
    module: ResolvedModule,
    parent: Seq<char>,
    package_ids: Seq<(Seq<char>, String)>,
    definition_ids: Seq<(Seq<char>, String)>,
    usage_ids: Seq<(Seq<char>, String)>,
) -> Seq<Seq<char>> {
    child_package_ids(module.packages@, parent, package_ids, module.packages@.len() as int) + child_definition_ids(
        module.definitions@,
        parent,
        definition_ids,
        module.definitions@.len() as int,
    ) + child_usage_ids(v, module.usages@, parent, usage_ids, module.usages@.len() as int)
}

/// The member ids of each package of a module, by qualified name.
pub fn build_package_member_ids(
    module: &ResolvedModule,
    package_ids: &StrMap<String>,
    definition_ids: &StrMap<String>,
    usage_ids: &StrMap<String>,
    mappings: &MappingBundle,
) -> (r: StrMap<Vec<String>>)
    ensures
        forall|q: Seq<char>| #[trigger]
            lookup(r@, q) is Some <==> exists|i: int|
                0 <= i < module.packages@.len() && (#[trigger] module.packages@[i]).qualified_name@ == q,
        forall|q: Seq<char>| #[trigger]
            lookup(r@, q) is Some ==> crate::kerml::ast::strings_view(lookup(r@, q)->Some_0@) == package_member_ids(
                mappings@,
                *module,
                q,
                package_ids@,
                definition_ids@,
                usage_ids@,
            ),
{
    let mut members: StrMap<Vec<String>> = StrMap::new();
    let mut p: usize = 0;
    while p < module.packages.len()
        invariant
            p <= module.packages@.len(),
            forall|q: Seq<char>| #[trigger]
                lookup(members@, q) is Some <==> exists|i: int|
                    0 <= i < p && (#[trigger] module.packages@[i]).qualified_name@ == q,
            forall|q: Seq<char>| #[trigger]
                lookup(members@, q) is Some ==> crate::kerml::ast::strings_view(lookup(members@, q)->Some_0@)
                    == package_member_ids(mappings@, *module, q, package_ids@, definition_ids@, usage_ids@),
        decreases module.packages@.len() - p,
    {
        let parent = module.packages[p].qualified_name.as_str();
        let ghost pq = parent@;
        let mut list: Vec<String> = Vec::new();
        let mut i: usize = 0;
        while i < module.packages.len()
            invariant
                i <= module.packages@.len(),
                pq == parent@,
                crate::kerml::ast::strings_view(list@) == child_package_ids(module.packages@, pq, package_ids@, i as int),
            decreases module.packages@.len() - i,
        {
            let q = module.packages[i].qualified_name.as_str();
            if crate::lowering::emit::is_direct_child(q, parent) {
                match package_ids.get(q) {
                    Some(id) => {
                        let ghost before = crate::kerml::ast::strings_view(list@);
                        list.push(owned(id.as_str()));
                        proof {
                            assert(crate::kerml::ast::strings_view(list@) =~= before.push(id@));
                        }
                    },
                    None => {},
                }
            }
            i = i + 1;
        }
        let ghost pk = crate::kerml::ast::strings_view(list@);
        let mut j: usize = 0;
        while j < module.definitions.len()
            invariant
                j <= module.definitions@.len(),
                pq == parent@,
                crate::kerml::ast::strings_view(list@) == pk + child_definition_ids(
                    module.definitions@,
                    pq,
                    definition_ids@,
                    j as int,
                ),
            decreases module.definitions@.len() - j,
        {
            let q = module.definitions[j].qualified_name.as_str();
            if crate::lowering::emit::is_direct_child(q, parent) {
                match definition_ids.get(q) {
                    Some(id) => {
                        let ghost before = crate::kerml::ast::strings_view(list@);
                        list.push(owned(id.as_str()));
                        proof {
                            assert(crate::kerml::ast::strings_view(list@) =~= before.push(id@));
                        }
                    },
                    None => {},
                }
            }
            j = j + 1;
        }
        let ghost df = crate::kerml::ast::strings_view(list@);
        let mut k: usize = 0;
        while k < module.usages.len()
            invariant
                k <= module.usages@.len(),
                pq == parent@,
                crate::kerml::ast::strings_view(list@) == df + child_usage_ids(
                    mappings@,
                    module.usages@,
                    pq,
                    usage_ids@,
                    k as int,
                ),
            decreases module.usages@.len() - k,
        {
            let usage = &module.usages[k];
            let q = usage.qualified_name.as_str();
            if mappings.usage_counts_as_owned_member(usage) && crate::lowering::emit::is_direct_child(q, parent) {
                match usage_ids.get(q) {
                    Some(id) => {
                        let ghost before = crate::kerml::ast::strings_view(list@);
                        list.push(owned(id.as_str()));
                        proof {
                            assert(crate::kerml::ast::strings_view(list@) =~= before.push(id@));
                        }
                    },
                    None => {},
                }
            }
            k = k + 1;
        }
        let ghost m0 = members@;
        let ghost lv = crate::kerml::ast::strings_view(list@);
        let ghost lst = list;
        members.insert(owned(parent), list);
        proof {
            assert(lv == package_member_ids(mappings@, *module, pq, package_ids@, definition_ids@, usage_ids@));
            assert forall|q: Seq<char>| #[trigger]
                lookup(members@, q) is Some <==> exists|i: int|
                    0 <= i < p + 1 && (#[trigger] module.packages@[i]).qualified_name@ == q by {
                assert(lookup(members@, q) == if q == pq {
                    Some(lst)
                } else {
                    lookup(m0, q)
                });
                if exists|i: int| 0 <= i < p + 1 && (#[trigger] module.packages@[i]).qualified_name@ == q {
                    let i = choose|i: int| 0 <= i < p + 1 && (#[trigger] module.packages@[i]).qualified_name@ == q;
                    if i < p {
                        assert(exists|i2: int| 0 <= i2 < p && (#[trigger] module.packages@[i2]).qualified_name@ == q);
                    }
                }
                if exists|i: int| 0 <= i < p && (#[trigger] module.packages@[i]).qualified_name@ == q {
                    let i = choose|i: int| 0 <= i < p && (#[trigger] module.packages@[i]).qualified_name@ == q;
                    assert(0 <= i < p + 1);
                }
                if q == pq {
                    assert(module.packages@[p as int].qualified_name@ == q);
                }
            }
            assert forall|q: Seq<char>| #[trigger]
                lookup(members@, q) is Some implies crate::kerml::ast::strings_view(lookup(members@, q)->Some_0@)
                    == package_member_ids(mappings@, *module, q, package_ids@, definition_ids@, usage_ids@) by {
                assert(lookup(members@, q) == if q == pq {
                    Some(lst)
                } else {
                    lookup(m0, q)
                });
            }
        }
        p = p + 1;
    }
    members
}

} // verus!
