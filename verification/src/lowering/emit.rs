//! The metamodel construct and emission seeds of a language profile: the
//! built-in KerML seeds and how a profile's seeds overlay them, and the
//! string helpers emission uses.
use vstd::prelude::*;

use crate::kerml::ast::strings_view;
use crate::strmap::{
    StrMap, has_key, keys_sorted, lookup, overlaid, str_lookup, values_of,
};
use crate::text::{
    after_last, after_last_str, concat2, concat3, contains_char, ends_with, is_prefix, is_suffix,
    push_char, starts_with, str_eq,
};

verus! {

/// The construct and keyword registry of a metamodel.
#[derive(Debug, Clone)]
pub struct MetamodelConstructSeed {
    pub keyword_registry: KeywordRegistrySeed,
    pub default_specialization_anchors: DefaultSpecializationAnchorsSeed,
    pub semantic_specialization_defaults: SemanticSpecializationDefaultsSeed,
    pub usage_semantic_specialization_overrides: UsageSemanticSpecializationOverrideSeed,
    pub stdlib_aliases: StdlibAliasSeed,
    pub constructs: Vec<MetamodelConstructEntry>,
}

/// A construct and the metaclass it lowers to.
#[derive(Debug, Clone)]
pub struct MetamodelConstructEntry {
    pub construct: String,
    pub metaclass: String,
}

/// The seed of the KerML pilot profile, under its earlier name.
pub type PilotConstructSeed = MetamodelConstructSeed;

/// A construct entry of the pilot profile, under its earlier name.
pub type PilotConstructEntry = MetamodelConstructEntry;

/// The constructs that definition and usage keywords introduce.
#[derive(Debug, Clone, Default)]
pub struct KeywordRegistrySeed {
    pub definitions: StrMap<String>,
    pub usages: StrMap<String>,
}

/// The library element each package, definition and usage construct
/// specializes by default.
#[derive(Debug, Clone, Default)]
pub struct DefaultSpecializationAnchorsSeed {
    pub packages: StrMap<String>,
    pub definitions: StrMap<String>,
    pub usages: StrMap<String>,
}

/// The semantic specializations of definition and usage constructs.
#[derive(Debug, Clone, Default)]
pub struct SemanticSpecializationDefaultsSeed {
    pub definitions: StrMap<Vec<String>>,
    pub usages: StrMap<Vec<String>>,
}

/// Per usage construct, the semantic specializations a modifier selects.
#[derive(Debug, Clone, Default)]
pub struct UsageSemanticSpecializationOverrideSeed {
    pub usages: StrMap<StrMap<Vec<String>>>,
}

/// Library element ids and the ids they stand for.
#[derive(Debug, Clone, Default)]
pub struct StdlibAliasSeed {
    pub ids: StrMap<String>,
}

/// How each metaclass is emitted.
#[derive(Debug, Clone)]
pub struct KirEmissionSeed {
    pub metaclasses: StrMap<EmissionRule>,
}

/// The element kind, id template and property templates of a metaclass.
#[derive(Debug, Clone)]
pub struct EmissionRule {
    pub kir_kind: String,
    pub id_template: String,
    pub emit: EmissionSpec,
}

/// The property templates of an emission rule.
#[derive(Debug, Clone)]
pub struct EmissionSpec {
    pub properties: StrMap<String>,
}

// ------------------------------------------------------------ views

/// The characters of a list of string pairs.
pub open spec fn str_pairs(ps: Seq<(&str, &str)>) -> Seq<(Seq<char>, Seq<char>)> {
    ps.map_values(|p: (&str, &str)| (p.0@, p.1@))
}

/// The value the last pair with key `k` gives it: what collecting the
/// pairs into an ordered map keeps.
pub open spec fn last_pair_value(ps: Seq<(Seq<char>, Seq<char>)>, k: Seq<char>) -> Option<Seq<char>>
    decreases ps.len(),
{
    if ps.len() == 0 {
        None
    } else if ps.last().0 == k {
        Some(ps.last().1)
    } else {
        last_pair_value(ps.drop_last(), k)
    }
}

/// `e` has kind `kind`, id template `template`, and the properties the
/// pairs `props` give.
pub open spec fn emission_is(
    e: EmissionRule,
    kind: Seq<char>,
    template: Seq<char>,
    props: Seq<(Seq<char>, Seq<char>)>,
) -> bool {
    &&& e.kir_kind@ == kind
    &&& e.id_template@ == template
    &&& forall|q: Seq<char>| #[trigger] str_lookup(e.emit.properties@, q) == last_pair_value(props, q)
}

/// The construct and metaclass of each entry.
pub open spec fn entries_view(es: Seq<MetamodelConstructEntry>) -> Seq<(Seq<char>, Seq<char>)> {
    es.map_values(|e: MetamodelConstructEntry| (e.construct@, e.metaclass@))
}

/// The last entry of `es` for construct `k`.
pub open spec fn last_construct(es: Seq<MetamodelConstructEntry>, k: Seq<char>) -> Option<
    MetamodelConstructEntry,
>
    decreases es.len(),
{
    if es.len() == 0 {
        None
    } else if es.last().construct@ == k {
        Some(es.last())
    } else {
        last_construct(es.drop_last(), k)
    }
}

// ------------------------------------------------------------ the KerML seeds

/// The construct a KerML definition keyword introduces.
pub open spec fn kerml_definition_keyword(q: Seq<char>) -> Option<Seq<char>> {
    if q == "feature"@ {
        Some("FeatureDefinition"@)
    } else if q == "assoc"@ || q == "association"@ || q == "behavior"@ || q == "class"@ || q == "classifier"@ || q == "datatype"@ || q == "function"@ || q == "interaction"@ || q == "metaclass"@ || q == "predicate"@ || q == "struct"@ {
        Some("Classifier"@)
    } else {
        None
    }
}

/// The construct a KerML usage keyword introduces.
pub open spec fn kerml_usage_keyword(q: Seq<char>) -> Option<Seq<char>> {
    if q == "comment"@ || q == "doc"@ || q == "feature"@ || q == "locale"@ {
        Some("FeatureUsage"@)
    } else {
        None
    }
}

/// The KerML constructs and their metaclasses.
pub open spec fn kerml_constructs() -> Seq<(Seq<char>, Seq<char>)> {
    seq![
        ("Package"@, "KerML::Package"@),
        ("Import"@, "KerML::Import"@),
        ("Classifier"@, "KerML::Classifier"@),
        ("FeatureDefinition"@, "KerML::Classifier"@),
        ("FeatureUsage"@, "KerML::Feature"@),
    ]
}

/// The property templates of a KerML package.
pub open spec fn package_properties() -> Seq<(Seq<char>, Seq<char>)> {
    seq![
        ("declared_name"@, "{declared_name}"@),
        ("name"@, "{name}"@),
        ("owner"@, "{owner_id}"@),
        ("members"@, "{member_ids}"@),
        ("metatype"@, "{metatype_ref}"@),
    ]
}

/// The property templates of a KerML import.
pub open spec fn import_properties() -> Seq<(Seq<char>, Seq<char>)> {
    seq![
        ("owner"@, "{owner_id}"@),
        ("imports"@, "{target_ref}"@),
        ("metatype"@, "{metatype_ref}"@),
    ]
}

/// The property templates of a KerML classifier.
pub open spec fn classifier_properties() -> Seq<(Seq<char>, Seq<char>)> {
    seq![
        ("declared_name"@, "{declared_name}"@),
        ("name"@, "{name}"@),
        ("owner"@, "{owner_id}"@),
        ("is_abstract"@, "{is_abstract}"@),
        ("specializes"@, "{specializes_refs}"@),
        ("members"@, "{member_ids}"@),
        ("features"@, "{owned_feature_ids}"@),
        ("metatype"@, "{metatype_ref}"@),
    ]
}

/// The property templates of a KerML feature.
pub open spec fn feature_properties() -> Seq<(Seq<char>, Seq<char>)> {
    seq![
        ("owner"@, "{owner_id}"@),
        ("type"@, "{type_ref}"@),
        ("declared_name"@, "{declared_name}"@),
        ("specialized_features"@, "{specialized_feature_refs}"@),
        ("subsetted_features"@, "{subsetted_feature_refs}"@),
        ("redefined_features"@, "{redefined_feature_refs}"@),
        ("members"@, "{member_ids}"@),
        ("features"@, "{owned_feature_ids}"@),
        ("metatype"@, "{metatype_ref}"@),
    ]
}

/// The built-in KerML construct seed.
pub fn kerml_construct_seed() -> (r: PilotConstructSeed)
    ensures
        forall|q: Seq<char>| #[trigger] str_lookup(r.keyword_registry.definitions@, q) == kerml_definition_keyword(q),
        forall|q: Seq<char>| #[trigger] str_lookup(r.keyword_registry.usages@, q) == kerml_usage_keyword(q),
        forall|q: Seq<char>| #[trigger] str_lookup(r.default_specialization_anchors.packages@, q) == if q == "Package"@ {
            Some("KerML::Kernel::Package"@)
        } else {
            None
        },
        r.default_specialization_anchors.definitions@.len() == 0,
        r.default_specialization_anchors.usages@.len() == 0,
        r.semantic_specialization_defaults.definitions@.len() == 0,
        r.semantic_specialization_defaults.usages@.len() == 0,
        r.usage_semantic_specialization_overrides.usages@.len() == 0,
        r.stdlib_aliases.ids@.len() == 0,
        entries_view(r.constructs@) == kerml_constructs(),
{
    let mut definitions: StrMap<String> = StrMap::new();
    definitions.insert(String::from_str("assoc"), String::from_str("Classifier"));
    definitions.insert(String::from_str("association"), String::from_str("Classifier"));
    definitions.insert(String::from_str("behavior"), String::from_str("Classifier"));
    definitions.insert(String::from_str("class"), String::from_str("Classifier"));
    definitions.insert(String::from_str("classifier"), String::from_str("Classifier"));
    definitions.insert(String::from_str("datatype"), String::from_str("Classifier"));
    definitions.insert(String::from_str("function"), String::from_str("Classifier"));
    definitions.insert(String::from_str("interaction"), String::from_str("Classifier"));
    definitions.insert(String::from_str("metaclass"), String::from_str("Classifier"));
    definitions.insert(String::from_str("predicate"), String::from_str("Classifier"));
    definitions.insert(String::from_str("struct"), String::from_str("Classifier"));
    definitions.insert(String::from_str("feature"), String::from_str("FeatureDefinition"));
    let mut usages: StrMap<String> = StrMap::new();
    usages.insert(String::from_str("comment"), String::from_str("FeatureUsage"));
    usages.insert(String::from_str("doc"), String::from_str("FeatureUsage"));
    usages.insert(String::from_str("feature"), String::from_str("FeatureUsage"));
    usages.insert(String::from_str("locale"), String::from_str("FeatureUsage"));
    let mut packages: StrMap<String> = StrMap::new();
    packages.insert(String::from_str("Package"), String::from_str("KerML::Kernel::Package"));
    let mut constructs: Vec<MetamodelConstructEntry> = Vec::new();
    constructs.push(MetamodelConstructEntry {
        construct: String::from_str("Package"),
        metaclass: String::from_str("KerML::Package"),
    });
    constructs.push(MetamodelConstructEntry {
        construct: String::from_str("Import"),
        metaclass: String::from_str("KerML::Import"),
    });
    constructs.push(MetamodelConstructEntry {
        construct: String::from_str("Classifier"),
        metaclass: String::from_str("KerML::Classifier"),
    });
    constructs.push(MetamodelConstructEntry {
        construct: String::from_str("FeatureDefinition"),
        metaclass: String::from_str("KerML::Classifier"),
    });
    constructs.push(MetamodelConstructEntry {
        construct: String::from_str("FeatureUsage"),
        metaclass: String::from_str("KerML::Feature"),
    });
    assert(entries_view(constructs@) =~= kerml_constructs());
    MetamodelConstructSeed {
        keyword_registry: KeywordRegistrySeed { definitions, usages },
        default_specialization_anchors: DefaultSpecializationAnchorsSeed {
            packages,
            definitions: StrMap::new(),
            usages: StrMap::new(),
        },
        semantic_specialization_defaults: SemanticSpecializationDefaultsSeed {
            definitions: StrMap::new(),
            usages: StrMap::new(),
        },
        usage_semantic_specialization_overrides: UsageSemanticSpecializationOverrideSeed {
            usages: StrMap::new(),
        },
        stdlib_aliases: StdlibAliasSeed { ids: StrMap::new() },
        constructs,
    }
}

/// An emission rule with the given kind, id template and properties; a
/// later pair for the same property wins.
pub fn emission_rule(kir_kind: &str, id_template: &str, properties: &[(&str, &str)]) -> (r:
    EmissionRule)
    ensures
        emission_is(r, kir_kind@, id_template@, str_pairs(properties@)),
{
    let mut props: StrMap<String> = StrMap::new();
    let mut i: usize = 0;
    while i < properties.len()
        invariant
            i <= properties@.len(),
            forall|q: Seq<char>| #[trigger] str_lookup(props@, q) == last_pair_value(
                str_pairs(properties@).take(i as int),
                q,
            ),
        decreases properties@.len() - i,
    {
        let (key, value) = properties[i];
        let ghost before = props@;
        let k = String::from_str(key);
        let v = String::from_str(value);
        let ghost vv = v;
        props.insert(k, v);
        proof {
            let ps = str_pairs(properties@);
            assert(ps.take(i + 1).drop_last() =~= ps.take(i as int));
            assert(ps.take(i + 1).last() == (key@, value@));
            assert forall|q: Seq<char>| #[trigger] str_lookup(props@, q) == last_pair_value(
                ps.take(i + 1),
                q,
            ) by {
                assert(lookup(props@, q) == if q == key@ {
                    Some(vv)
                } else {
                    lookup(before, q)
                });
                assert(str_lookup(before, q) == last_pair_value(ps.take(i as int), q));
            }
        }
        i = i + 1;
    }
    assert(str_pairs(properties@).take(properties@.len() as int) =~= str_pairs(properties@));
    EmissionRule {
        kir_kind: String::from_str(kir_kind),
        id_template: String::from_str(id_template),
        emit: EmissionSpec { properties: props },
    }
}

/// The built-in KerML emission seed.
pub fn kerml_emission_seed() -> (r: KirEmissionSeed)
    ensures
        forall|q: Seq<char>| #[trigger] has_key(r.metaclasses@, q) <==> (q == "KerML::Package"@ || q
            == "KerML::Import"@ || q == "KerML::Classifier"@ || q == "KerML::Feature"@),
        lookup(r.metaclasses@, "KerML::Package"@) matches Some(e) && emission_is(
            e,
            "KerML::Package"@,
            "pkg.{qualified_name}"@,
            package_properties(),
        ),
        lookup(r.metaclasses@, "KerML::Import"@) matches Some(e) && emission_is(
            e,
            "KerML::Import"@,
            "import.{owner_id}.{ordinal}"@,
            import_properties(),
        ),
        lookup(r.metaclasses@, "KerML::Classifier"@) matches Some(e) && emission_is(
            e,
            "KerML::Core::Type"@,
            "type.{qualified_name}"@,
            classifier_properties(),
        ),
        lookup(r.metaclasses@, "KerML::Feature"@) matches Some(e) && emission_is(
            e,
            "KerML::Core::Feature"@,
            "feature.{owner_path}.{declared_name}"@,
            feature_properties(),
        ),
{
    let mut metaclasses: StrMap<EmissionRule> = StrMap::new();
    let package_props: [(&str, &str); 5] = [
        ("declared_name", "{declared_name}"),
        ("name", "{name}"),
        ("owner", "{owner_id}"),
        ("members", "{member_ids}"),
        ("metatype", "{metatype_ref}"),
    ];
    assert(str_pairs(package_props@) =~= package_properties());
    let package = emission_rule("KerML::Package", "pkg.{qualified_name}", &package_props);
    let ghost pk = package;
    metaclasses.insert(String::from_str("KerML::Package"), package);
    let import_props: [(&str, &str); 3] = [
        ("owner", "{owner_id}"),
        ("imports", "{target_ref}"),
        ("metatype", "{metatype_ref}"),
    ];
    assert(str_pairs(import_props@) =~= import_properties());
    let import = emission_rule("KerML::Import", "import.{owner_id}.{ordinal}", &import_props);
    let ghost im = import;
    metaclasses.insert(String::from_str("KerML::Import"), import);
    let classifier_props: [(&str, &str); 8] = [
        ("declared_name", "{declared_name}"),
        ("name", "{name}"),
        ("owner", "{owner_id}"),
        ("is_abstract", "{is_abstract}"),
        ("specializes", "{specializes_refs}"),
        ("members", "{member_ids}"),
        ("features", "{owned_feature_ids}"),
        ("metatype", "{metatype_ref}"),
    ];
    assert(str_pairs(classifier_props@) =~= classifier_properties());
    let classifier = emission_rule("KerML::Core::Type", "type.{qualified_name}", &classifier_props);
    metaclasses.insert(String::from_str("KerML::Classifier"), classifier);
    let feature_props: [(&str, &str); 9] = [
        ("owner", "{owner_id}"),
        ("type", "{type_ref}"),
        ("declared_name", "{declared_name}"),
        ("specialized_features", "{specialized_feature_refs}"),
        ("subsetted_features", "{subsetted_feature_refs}"),
        ("redefined_features", "{redefined_feature_refs}"),
        ("members", "{member_ids}"),
        ("features", "{owned_feature_ids}"),
        ("metatype", "{metatype_ref}"),
    ];
    assert(str_pairs(feature_props@) =~= feature_properties());
    let feature = emission_rule(
        "KerML::Core::Feature",
        "feature.{owner_path}.{declared_name}",
        &feature_props,
    );
    metaclasses.insert(String::from_str("KerML::Feature"), feature);
    proof {
        reveal_strlit("KerML::Package");
        reveal_strlit("KerML::Import");
        reveal_strlit("KerML::Classifier");
        reveal_strlit("KerML::Feature");
        assert("KerML::Package"@[7] != "KerML::Feature"@[7]);
        assert(lookup(metaclasses@, "KerML::Package"@) == Some(pk));
        assert(lookup(metaclasses@, "KerML::Import"@) == Some(im));
        assert forall|q: Seq<char>| #[trigger] has_key(metaclasses@, q) <==> (q == "KerML::Package"@
            || q == "KerML::Import"@ || q == "KerML::Classifier"@ || q == "KerML::Feature"@) by {
            assert(lookup(metaclasses@, q) is Some <==> has_key(metaclasses@, q));
        }
    }
    KirEmissionSeed { metaclasses }
}

// ------------------------------------------------------------ overlaying seeds

/// The merged construct list of `es`: one entry per construct, the last
/// one given for it, in construct order.
pub open spec fn merged_constructs(es: Seq<MetamodelConstructEntry>, out: Seq<MetamodelConstructEntry>) -> bool {
    exists|s: Seq<(Seq<char>, MetamodelConstructEntry)>|
        keys_sorted(s) && out == values_of(s) && forall|q: Seq<char>| #[trigger]
            lookup(s, q) == last_construct(es, q)
}

/// `base` overlaid with `overlay`: every map takes the overlay's value for
/// each key it has; the constructs of both, the overlay's winning, are
/// listed once each in construct order.
pub fn merge_construct_seeds(base: PilotConstructSeed, overlay: PilotConstructSeed) -> (r:
    PilotConstructSeed)
    ensures
        forall|q: Seq<char>| #[trigger] lookup(r.keyword_registry.definitions@, q) == overlaid(
            base.keyword_registry.definitions@,
            overlay.keyword_registry.definitions@,
            q,
        ),
        forall|q: Seq<char>| #[trigger] lookup(r.keyword_registry.usages@, q) == overlaid(
            base.keyword_registry.usages@,
            overlay.keyword_registry.usages@,
            q,
        ),
        forall|q: Seq<char>| #[trigger] lookup(r.default_specialization_anchors.packages@, q) == overlaid(
            base.default_specialization_anchors.packages@,
            overlay.default_specialization_anchors.packages@,
            q,
        ),
        forall|q: Seq<char>| #[trigger] lookup(r.default_specialization_anchors.definitions@, q) == overlaid(
            base.default_specialization_anchors.definitions@,
            overlay.default_specialization_anchors.definitions@,
            q,
        ),
        forall|q: Seq<char>| #[trigger] lookup(r.default_specialization_anchors.usages@, q) == overlaid(
            base.default_specialization_anchors.usages@,
            overlay.default_specialization_anchors.usages@,
            q,
        ),
        forall|q: Seq<char>| #[trigger] lookup(r.semantic_specialization_defaults.definitions@, q) == overlaid(
            base.semantic_specialization_defaults.definitions@,
            overlay.semantic_specialization_defaults.definitions@,
            q,
        ),
        forall|q: Seq<char>| #[trigger] lookup(r.semantic_specialization_defaults.usages@, q) == overlaid(
            base.semantic_specialization_defaults.usages@,
            overlay.semantic_specialization_defaults.usages@,
            q,
        ),
        forall|q: Seq<char>| #[trigger] lookup(r.usage_semantic_specialization_overrides.usages@, q) == overlaid(
            base.usage_semantic_specialization_overrides.usages@,
            overlay.usage_semantic_specialization_overrides.usages@,
            q,
        ),
        forall|q: Seq<char>| #[trigger] lookup(r.stdlib_aliases.ids@, q) == overlaid(
            base.stdlib_aliases.ids@,
            overlay.stdlib_aliases.ids@,
            q,
        ),
        merged_constructs(base.constructs@ + overlay.constructs@, r.constructs@),
{
    let mut base = base;
    let overlay = overlay;
    base.keyword_registry.definitions.extend(overlay.keyword_registry.definitions);
    base.keyword_registry.usages.extend(overlay.keyword_registry.usages);
    base.default_specialization_anchors.packages.extend(overlay.default_specialization_anchors.packages);
    base.default_specialization_anchors.definitions.extend(
        overlay.default_specialization_anchors.definitions,
    );
    base.default_specialization_anchors.usages.extend(overlay.default_specialization_anchors.usages);
    base.semantic_specialization_defaults.definitions.extend(
        overlay.semantic_specialization_defaults.definitions,
    );
    base.semantic_specialization_defaults.usages.extend(
        overlay.semantic_specialization_defaults.usages,
    );
    base.usage_semantic_specialization_overrides.usages.extend(
        overlay.usage_semantic_specialization_overrides.usages,
    );
    base.stdlib_aliases.ids.extend(overlay.stdlib_aliases.ids);

    let ghost all = base.constructs@ + overlay.constructs@;
    let mut pending = base.constructs;
    let mut later = overlay.constructs;
    pending.append(&mut later);
    assert(pending@ == all);
    let total = pending.len();
    assert(all.len() == total);
    let mut by_construct: StrMap<MetamodelConstructEntry> = StrMap::new();
    let mut i: usize = 0;
    while pending.len() > 0
        invariant
            all.len() <= usize::MAX,
            i + pending@.len() == all.len(),
            pending@ == all.skip(i as int),
            forall|q: Seq<char>| #[trigger] lookup(by_construct@, q) == last_construct(
                all.take(i as int),
                q,
            ),
        decreases pending@.len(),
    {
        let ghost before = by_construct@;
        let entry = pending.remove(0);
        proof {
            assert(entry == all[i as int]);
            assert(pending@ =~= all.skip(i + 1));
            assert(all.take(i + 1).drop_last() =~= all.take(i as int));
        }
        let key = entry.construct.clone();
        by_construct.insert(key, entry);
        i = i + 1;
    }
    assert(all.take(i as int) =~= all);
    let ghost listing = by_construct@;
    let constructs = by_construct.into_values();
    assert(merged_constructs(all, constructs@));
    base.constructs = constructs;
    base
}

/// `base` with every metaclass of `overlay` taking the overlay's rule.
pub fn merge_emission_seeds(base: KirEmissionSeed, overlay: KirEmissionSeed) -> (r: KirEmissionSeed)
    ensures
        forall|q: Seq<char>| #[trigger] lookup(r.metaclasses@, q) == overlaid(
            base.metaclasses@,
            overlay.metaclasses@,
            q,
        ),
{
    let mut base = base;
    base.metaclasses.extend(overlay.metaclasses);
    base
}

// ------------------------------------------------------------ string helpers

/// `c` in upper case if it is an ASCII lower-case letter.
pub open spec fn ascii_upper(c: char) -> char {
    if 'a' <= c && c <= 'z' {
        ((c as u32) - 32) as char
    } else {
        c
    }
}

/// `value` with its first character in ASCII upper case.
pub open spec fn pascal(value: Seq<char>) -> Seq<char> {
    if value.len() == 0 {
        value
    } else {
        seq![ascii_upper(value[0])] + value.drop_first()
    }
}

/// `value` with its first character in ASCII upper case.
pub fn pascal_case(value: &str) -> (r: String)
    ensures
        r@ == pascal(value@),
{
    let n = value.unicode_len();
    if n == 0 {
        return String::new();
    }
    let first = value.get_char(0);
    let upper = if 'a' <= first && first <= 'z' {
        ((first as u8) - 32) as char
    } else {
        first
    };
    let mut out = String::new();
    push_char(&mut out, upper);
    out.append(value.substring_char(1, n));
    assert(out@ =~= pascal(value@));
    out
}

/// The properties emission derives rather than copies.
pub open spec fn materialized_derived_property(key: Seq<char>) -> bool {
    key == "name"@ || key == "short_name"@ || key == "shortName"@ || key == "qualifiedName"@
}

/// Whether emission derives property `key` rather than copying it.
pub fn is_materialized_derived_property(key: &str) -> (r: bool)
    ensures
        r == materialized_derived_property(key@),
{
    str_eq(key, "name") || str_eq(key, "short_name") || str_eq(key, "shortName") || str_eq(
        key,
        "qualifiedName",
    )
}

/// The name inside a template that is exactly one `{placeholder}`.
pub open spec fn placeholder_of(template: Seq<char>) -> Option<Seq<char>> {
    if template.len() >= 2 && template[0] == '{' && template.last() == '}' {
        Some(template.subrange(1, template.len() - 1))
    } else {
        None
    }
}

/// The placeholder name of a template of the form `{name}`.
pub fn exact_placeholder(template: &str) -> (r: Option<&str>)
    ensures
        match r {
            Some(p) => placeholder_of(template@) == Some(p@),
            None => placeholder_of(template@) is None,
        },
{
    let n = template.unicode_len();
    if n >= 2 && template.get_char(0) == '{' && template.get_char(n - 1) == '}' {
        Some(template.substring_char(1, n - 1))
    } else {
        None
    }
}

/// The value after `key=` in the first of `modifiers` that starts with it.
pub open spec fn first_modifier_value(modifiers: Seq<Seq<char>>, key: Seq<char>) -> Option<Seq<char>>
    decreases modifiers.len(),
{
    if modifiers.len() == 0 {
        None
    } else if is_prefix(key + "="@, modifiers[0]) {
        Some(modifiers[0].skip(key.len() as int + 1))
    } else {
        first_modifier_value(modifiers.drop_first(), key)
    }
}

/// The value given in a `key=value` modifier, from the first one for `key`.
pub fn modifier_value<'a>(modifiers: &'a [String], key: &str) -> (r: Option<&'a str>)
    ensures
        match r {
            Some(v) => first_modifier_value(strings_view(modifiers@), key@) == Some(v@),
            None => first_modifier_value(strings_view(modifiers@), key@) is None,
        },
{
    let prefix = concat2(key, "=");
    proof {
        reveal_strlit("=");
    }
    let mut i: usize = 0;
    assert(strings_view(modifiers@).skip(0) =~= strings_view(modifiers@));
    while i < modifiers.len()
        invariant
            i <= modifiers@.len(),
            prefix@ == key@ + "="@,
            first_modifier_value(strings_view(modifiers@), key@) == first_modifier_value(
                strings_view(modifiers@).skip(i as int),
                key@,
            ),
        decreases modifiers@.len() - i,
    {
        let m = modifiers[i].as_str();
        proof {
            let rest = strings_view(modifiers@).skip(i as int);
            assert(rest[0] == m@);
            assert(rest.drop_first() =~= strings_view(modifiers@).skip(i + 1));
        }
        if starts_with(m, prefix.as_str()) {
            let n = m.unicode_len();
            let p = prefix.unicode_len();
            let v = m.substring_char(p, n);
            proof {
                reveal_strlit("=");
                assert(p == key@.len() + 1);
                assert(v@ =~= m@.skip(key@.len() as int + 1));
            }
            return Some(v);
        }
        i = i + 1;
    }
    None
}

/// The qualified name of state `target` as a sibling in
/// `owner_qualified_name`: `target` itself if it is qualified.
pub open spec fn sibling_state(owner: Seq<char>, target: Seq<char>) -> Seq<char> {
    "state."@ + if target.contains('.') {
        target
    } else {
        owner + "."@ + target
    }
}

/// The element id of the state `target` names from within
/// `owner_qualified_name`.
pub fn sibling_state_id(owner_qualified_name: &str, target: &str) -> (r: Option<String>)
    ensures
        r matches Some(id) && id@ == sibling_state(owner_qualified_name@, target@),
{
    let target_qualified = if contains_char(target, '.') {
        String::from_str(target)
    } else {
        concat3(owner_qualified_name, ".", target)
    };
    Some(concat2("state.", target_qualified.as_str()))
}

/// The last segment of a reference, after any `::` and then any `.`.
pub open spec fn display_name(value: Seq<char>) -> Seq<char> {
    after_last(after_last(value, "::"@), "."@)
}

/// The name shown for a reference: its last segment.
pub fn display_name_for_ref(value: &str) -> (r: String)
    ensures
        r@ == display_name(value@),
{
    let tail = after_last_str(value, "::");
    after_last_str(tail.as_str(), ".")
}

/// `candidate` names a direct child of `parent`: `parent.name` with no
/// further `.`.
pub open spec fn direct_child_of(candidate: Seq<char>, parent: Seq<char>) -> bool {
    is_prefix(parent + "."@, candidate) && !candidate.skip(parent.len() as int + 1).contains('.')
}

/// Whether `candidate` is a direct child of `parent`.
pub fn is_direct_child(candidate: &str, parent: &str) -> (r: bool)
    ensures
        r == direct_child_of(candidate@, parent@),
{
    proof {
        reveal_strlit(".");
    }
    let prefix = concat2(parent, ".");
    if !starts_with(candidate, prefix.as_str()) {
        proof {
            assert(prefix@ == parent@ + "."@);
        }
        return false;
    }
    let n = candidate.unicode_len();
    let p = prefix.unicode_len();
    let rest = candidate.substring_char(p, n);
    !contains_char(rest, '.')
}

/// The library types whose values are data values.
pub open spec fn data_value_like(type_ref: Seq<char>) -> bool {
    let tail = display_name(type_ref);
    ||| tail == "Boolean"@
    ||| tail == "Integer"@
    ||| tail == "Natural"@
    ||| tail == "Real"@
    ||| tail == "Rational"@
    ||| tail == "String"@
    ||| tail == "UnlimitedNatural"@
    ||| is_suffix("Value"@, tail)
}

/// Whether `type_ref` names a data-value type: a primitive, or a type whose
/// last segment ends in `Value`.
pub fn is_data_value_like_ref(type_ref: &str) -> (r: bool)
    ensures
        r == data_value_like(type_ref@),
{
    let tail = display_name_for_ref(type_ref);
    let t = tail.as_str();
    str_eq(t, "Boolean") || str_eq(t, "Integer") || str_eq(t, "Natural") || str_eq(t, "Real")
        || str_eq(t, "Rational") || str_eq(t, "String") || str_eq(t, "UnlimitedNatural")
        || ends_with(t, "Value")
}

/// Whether there is at least one type reference and every one names a
/// data-value type.
pub fn all_data_value_like_refs(type_refs: &[String]) -> (r: bool)
    ensures
        r == (type_refs@.len() > 0 && forall|i: int|
            0 <= i < type_refs@.len() ==> data_value_like(#[trigger] type_refs@[i]@)),
{
    if type_refs.len() == 0 {
        return false;
    }
    let mut i: usize = 0;
    while i < type_refs.len()
        invariant
            i <= type_refs@.len(),
            forall|j: int| 0 <= j < i ==> data_value_like(#[trigger] type_refs@[j]@),
        decreases type_refs@.len() - i,
    {
        if !is_data_value_like_ref(type_refs[i].as_str()) {
            return false;
        }
        i = i + 1;
    }
    true
}

} // verus!
