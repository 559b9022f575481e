//! Language profiles: profile ids and the collect expressions of lowering
//! rules.
use vstd::prelude::*;

use crate::kerml::token::Diagnostic;
use crate::lowering::bundle::{MappingBundle, MappingView, definition_construct, usage_construct};
use crate::lowering::rules::{
    LoweringElaborationRule, LoweringRule, LoweringRuleSeed, has_runtime_collect_expression,
    has_runtime_elaboration_hook, runtime_collect_expression, runtime_elaboration_rule,
};
use crate::strmap::{has_key, lookup};
use crate::text::{concat2, concat3, str_eq};

verus! {

/// The profile id that `id` stands for: the pilot profile is now the
/// metamodel profile.
pub open spec fn canonical_profile(id: Seq<char>) -> Seq<char> {
    if id == "sysml-2.0-pilot-0.57.0"@ {
        "sysml-2.0-metamodel-0.57.0"@
    } else {
        id
    }
}

/// The current id of profile `id`.
pub fn canonical_profile_id(id: &str) -> (r: &str)
    ensures
        r@ == canonical_profile(id@),
{
    if str_eq(id, "sysml-2.0-pilot-0.57.0") {
        "sysml-2.0-metamodel-0.57.0"
    } else {
        id
    }
}

/// The characters of a list of string pairs.
pub open spec fn pair_views(ps: Seq<(&str, &str)>) -> Seq<(Seq<char>, Seq<char>)> {
    ps.map_values(|p: (&str, &str)| (p.0@, p.1@))
}

/// A rule's collect expressions by slot: element, name and owner, then its
/// fields in name order.
pub open spec fn rule_expressions(rule: LoweringRule) -> Seq<(Seq<char>, Seq<char>)> {
    seq![
        ("element"@, rule.collect.element@),
        ("name"@, rule.collect.name@),
        ("owner"@, rule.collect.owner@),
    ] + rule.collect.fields@.map_values(|e: (Seq<char>, String)| (e.0, e.1@))
}

/// The collect expressions of `rule`, each with its slot.
pub fn collect_rule_expressions(rule: &LoweringRule) -> (r: Vec<(&str, &str)>)
    ensures
        pair_views(r@) == rule_expressions(*rule),
{
    let mut expressions: Vec<(&str, &str)> = Vec::new();
    expressions.push(("element", rule.collect.element.as_str()));
    expressions.push(("name", rule.collect.name.as_str()));
    expressions.push(("owner", rule.collect.owner.as_str()));
    let n = rule.collect.fields.len();
    let mut i: usize = 0;
    assert(pair_views(expressions@) =~= rule_expressions(*rule).take(3));
    while i < n
        invariant
            n == rule.collect.fields@.len(),
            i <= n,
            pair_views(expressions@) == rule_expressions(*rule).take(3 + i),
        decreases n - i,
    {
        let ghost before = expressions@;
        expressions.push(
            (rule.collect.fields.key_at(i).as_str(), rule.collect.fields.value_at(i).as_str()),
        );
        proof {
            assert(pair_views(expressions@) =~= pair_views(before).push(
                (rule.collect.fields@[i as int].0, rule.collect.fields@[i as int].1@),
            ));
            assert(rule_expressions(*rule).take(3 + i + 1) =~= rule_expressions(*rule).take(
                3 + i,
            ).push(rule_expressions(*rule)[3 + i]));
        }
        i = i + 1;
    }
    assert(rule_expressions(*rule).take(3 + n) =~= rule_expressions(*rule));
    expressions
}


// ------------------------------------------------------------ checking rules against mappings

/// The first collect expression the runtime cannot evaluate, with its slot.
pub open spec fn first_unsupported(es: Seq<(Seq<char>, Seq<char>)>) -> Option<(Seq<char>, Seq<char>)>
    decreases es.len(),
{
    if es.len() == 0 {
        None
    } else if !runtime_collect_expression(es[0].1) {
        Some(es[0])
    } else {
        first_unsupported(es.drop_first())
    }
}

/// The first property of `props` that `emitted` lacks.
pub open spec fn first_missing_property(
    props: Seq<(Seq<char>, String)>,
    emitted: Seq<(Seq<char>, String)>,
) -> Option<Seq<char>>
    decreases props.len(),
{
    if props.len() == 0 {
        None
    } else if !has_key(emitted, props[0].0) {
        Some(props[0].0)
    } else {
        first_missing_property(props.drop_first(), emitted)
    }
}

/// The first elaboration step without a runtime hook.
pub open spec fn first_unhooked(steps: Seq<LoweringElaborationRule>) -> Option<Seq<char>>
    decreases steps.len(),
{
    if steps.len() == 0 {
        None
    } else if !runtime_elaboration_rule(steps[0].id@) {
        Some(steps[0].id@)
    } else {
        first_unhooked(steps.drop_first())
    }
}

/// What is wrong with the emission part of `rule`, if anything.
pub open spec fn emission_error(rule: LoweringRule, v: MappingView) -> Option<Seq<char>> {
    let c = rule.construct@;
    match lookup(v.emission, rule.metaclass@) {
        None => Some("missing emission mapping `"@ + rule.metaclass@ + "`"@),
        Some(e) => if rule.emit.id_template@ != e.id_template@ {
            Some(
                "lowering rule `"@ + c + "` id template `"@ + rule.emit.id_template@
                    + "` does not match emission mapping `"@ + rule.metaclass@ + "` template `"@
                    + e.id_template@ + "`"@,
            )
        } else {
            match first_missing_property(rule.emit.properties@, e.emit.properties@) {
                Some(p) => Some(
                    "lowering rule `"@ + c + "` property `"@ + p + "` is missing from emission mapping `"@
                        + rule.metaclass@ + "`"@,
                ),
                None => match first_unhooked(rule.elaborate@) {
                    Some(id) => Some(
                        "lowering rule `"@ + c + "` elaboration `"@ + id + "` has no runtime hook"@,
                    ),
                    None => None,
                },
            }
        },
    }
}

/// What is wrong with `rule` against the mappings `v`, if anything: the
/// first failing check, in the order they are made.
pub open spec fn rule_error(rule: LoweringRule, v: MappingView) -> Option<Seq<char>> {
    let c = rule.construct@;
    match first_unsupported(rule_expressions(rule)) {
        Some(p) => Some(
            "lowering rule `"@ + c + "` collect expression `"@ + p.1 + "` in `"@ + p.0
                + "` has no runtime support"@,
        ),
        None => if rule.collect.element@ == "definition"@ && rule.ast.keyword is Some
            && rule.ast.node@ == "GenericDefinitionDecl"@ && definition_construct(
            v,
            rule.ast.keyword->Some_0@,
        ) != c {
            Some(
                "lowering rule `"@ + c + "` definition keyword `"@ + rule.ast.keyword->Some_0@
                    + "` does not resolve to its construct"@,
            )
        } else if rule.collect.element@ == "usage"@ && rule.ast.keyword is Some && rule.ast.node@
            == "GenericUsageDecl"@ && usage_construct(v, rule.ast.keyword->Some_0@) != c {
            Some(
                "lowering rule `"@ + c + "` usage keyword `"@ + rule.ast.keyword->Some_0@
                    + "` does not resolve to its construct"@,
            )
        } else {
            emission_error(rule, v)
        },
    }
}

/// The error of the first rule that has one.
pub open spec fn rules_error(rules: Seq<LoweringRule>, v: MappingView) -> Option<Seq<char>>
    decreases rules.len(),
{
    if rules.len() == 0 {
        None
    } else {
        match rule_error(rules[0], v) {
            Some(m) => Some(m),
            None => rules_error(rules.drop_first(), v),
        }
    }
}

/// A diagnostic without a span carrying `message`.
fn diagnostic(message: String) -> (d: Diagnostic)
    ensures
        d.message@ == message@,
        d.span is None,
{
    Diagnostic::new(message.as_str(), None)
}

/// Checks one rule against the mappings.
fn check_rule(rule: &LoweringRule, mappings: &MappingBundle) -> (r: Result<(), Diagnostic>)
    ensures
        match r {
            Ok(()) => rule_error(*rule, mappings@) is None,
            Err(d) => rule_error(*rule, mappings@) == Some(d.message@) && d.span is None,
        },
{
    let c = rule.construct.as_str();
    let exprs = collect_rule_expressions(rule);
    let ghost es = pair_views(exprs@);
    let mut k: usize = 0;
    assert(es.skip(0) =~= es);
    while k < exprs.len()
        invariant
            es == pair_views(exprs@),
            es == rule_expressions(*rule),
            c@ == rule.construct@,
            k <= es.len(),
            first_unsupported(es) == first_unsupported(es.skip(k as int)),
        decreases es.len() - k,
    {
        let (slot, expression) = exprs[k];
        proof {
            assert(es.skip(k as int)[0] == (slot@, expression@));
            assert(es.skip(k as int).drop_first() =~= es.skip(k + 1));
        }
        if !has_runtime_collect_expression(expression) {
            let m0 = concat3("lowering rule `", c, "` collect expression `");
            let m1 = concat3(m0.as_str(), expression, "` in `");
            let m2 = concat3(m1.as_str(), slot, "` has no runtime support");
            let d = diagnostic(m2);
            return Err(d);
        }
        k = k + 1;
    }
    if str_eq(rule.collect.element.as_str(), "definition") {
        match &rule.ast.keyword {
            Some(keyword) => {
                if str_eq(rule.ast.node.as_str(), "GenericDefinitionDecl") {
                    let construct = mappings.definition_construct_for(keyword.as_str());
                    if !str_eq(construct.as_str(), c) {
                        let m0 = concat3("lowering rule `", c, "` definition keyword `");
                        let m1 = concat3(m0.as_str(), keyword.as_str(), "` does not resolve to its construct");
                        let d = diagnostic(m1);
                        return Err(d);
                    }
                }
            },
            None => {},
        }
    } else if str_eq(rule.collect.element.as_str(), "usage") {
        match &rule.ast.keyword {
            Some(keyword) => {
                if str_eq(rule.ast.node.as_str(), "GenericUsageDecl") {
                    let construct = mappings.usage_construct_for(keyword.as_str());
                    if !str_eq(construct.as_str(), c) {
                        let m0 = concat3("lowering rule `", c, "` usage keyword `");
                        let m1 = concat3(m0.as_str(), keyword.as_str(), "` does not resolve to its construct");
                        let d = diagnostic(m1);
                        return Err(d);
                    }
                }
            },
            None => {},
        }
    }
    proof {
        reveal_strlit("definition");
        reveal_strlit("usage");
        assert("definition"@[0] != "usage"@[0]);
    }
    let emission = match mappings.emission_for(rule.metaclass.as_str()) {
        Ok(e) => e,
        Err(d) => {
            return Err(d);
        },
    };
    let m = rule.metaclass.as_str();
    if !str_eq(rule.emit.id_template.as_str(), emission.id_template.as_str()) {
        let m0 = concat3("lowering rule `", c, "` id template `");
        let m1 = concat3(m0.as_str(), rule.emit.id_template.as_str(), "` does not match emission mapping `");
        let m2 = concat3(m1.as_str(), m, "` template `");
        let m3 = concat3(m2.as_str(), emission.id_template.as_str(), "`");
        let d = diagnostic(m3);
        return Err(d);
    }
    assert(rule_error(*rule, mappings@) == emission_error(*rule, mappings@));
    let n = rule.emit.properties.len();
    let mut i: usize = 0;
    assert(rule.emit.properties@.skip(0) =~= rule.emit.properties@);
    while i < n
        invariant
            n == rule.emit.properties@.len(),
            i <= n,
            c@ == rule.construct@,
            m@ == rule.metaclass@,
            lookup(mappings@.emission, rule.metaclass@) == Some(*emission),
            rule.emit.id_template@ == emission.id_template@,
            rule_error(*rule, mappings@) == emission_error(*rule, mappings@),
            first_missing_property(rule.emit.properties@, emission.emit.properties@)
                == first_missing_property(rule.emit.properties@.skip(i as int), emission.emit.properties@),
        decreases n - i,
    {
        let key = rule.emit.properties.key_at(i).as_str();
        proof {
            assert(rule.emit.properties@.skip(i as int)[0].0 == key@);
            assert(rule.emit.properties@.skip(i as int).drop_first() =~= rule.emit.properties@.skip(
                i + 1,
            ));
        }
        if !emission.emit.properties.contains_key(key) {
            let m0 = concat3("lowering rule `", c, "` property `");
            let m1 = concat3(m0.as_str(), key, "` is missing from emission mapping `");
            let m2 = concat3(m1.as_str(), m, "`");
            let d = diagnostic(m2);
            return Err(d);
        }
        i = i + 1;
    }
    let ghost steps = rule.elaborate@;
    let mut j: usize = 0;
    assert(steps.skip(0) =~= steps);
    while j < rule.elaborate.len()
        invariant
            steps == rule.elaborate@,
            j <= steps.len(),
            c@ == rule.construct@,
            lookup(mappings@.emission, rule.metaclass@) == Some(*emission),
            rule.emit.id_template@ == emission.id_template@,
            first_missing_property(rule.emit.properties@, emission.emit.properties@) is None,
            rule_error(*rule, mappings@) == emission_error(*rule, mappings@),
            first_unhooked(steps) == first_unhooked(steps.skip(j as int)),
        decreases steps.len() - j,
    {
        let id = rule.elaborate[j].id.as_str();
        proof {
            assert(steps.skip(j as int)[0] == steps[j as int]);
            assert(steps.skip(j as int).drop_first() =~= steps.skip(j + 1));
        }
        if !has_runtime_elaboration_hook(id) {
            let m0 = concat3("lowering rule `", c, "` elaboration `");
            let m1 = concat3(m0.as_str(), id, "` has no runtime hook");
            let d = diagnostic(m1);
            return Err(d);
        }
        j = j + 1;
    }
    Ok(())
}

/// Checks every lowering rule against the mappings: its collect
/// expressions and elaboration steps must have runtime support, its
/// definition or usage keyword must resolve to its construct, and its id
/// template and properties must agree with the emission mapping of its
/// metaclass. The first failure is reported.
pub fn validate_lowering_rules_against_mappings(
    lowering_rules: Option<&LoweringRuleSeed>,
    mappings: &MappingBundle,
) -> (r: Result<(), Diagnostic>)
    ensures
        match lowering_rules {
            None => r is Ok,
            Some(seed) => match r {
                Ok(()) => rules_error(seed.rules@, mappings@) is None,
                Err(d) => rules_error(seed.rules@, mappings@) == Some(d.message@) && d.span is None,
            },
        },
{
    let seed = match lowering_rules {
        None => {
            return Ok(());
        },
        Some(seed) => seed,
    };
    let ghost rs = seed.rules@;
    let mut i: usize = 0;
    assert(rs.skip(0) =~= rs);
    while i < seed.rules.len()
        invariant
            rs == seed.rules@,
            lowering_rules == Some(seed),
            i <= rs.len(),
            rules_error(rs, mappings@) == rules_error(rs.skip(i as int), mappings@),
        decreases rs.len() - i,
    {
        proof {
            assert(rs.skip(i as int)[0] == rs[i as int]);
            assert(rs.skip(i as int).drop_first() =~= rs.skip(i + 1));
        }
        match check_rule(&seed.rules[i], mappings) {
            Ok(()) => {},
            Err(d) => {
                return Err(d);
            },
        }
        i = i + 1;
    }
    Ok(())
}

} // verus!
