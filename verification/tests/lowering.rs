use mercurio_sysml::kerml::ast::QualifiedName;
use mercurio_sysml::kerml::token::SourceSpan;
use mercurio_sysml::lowering::bundle::MappingBundle;
use mercurio_sysml::lowering::collect::{
    CollectedAlias, ImportAliases, qualify_name, qualify_segments, require_collect_expression, usage_qualified_name,
};
use mercurio_sysml::lowering::elaborate::dedupe_refs;
use mercurio_sysml::lowering::emit::{
    KirEmissionSeed, MetamodelConstructEntry, all_data_value_like_refs, display_name_for_ref,
    emission_rule, exact_placeholder, is_data_value_like_ref, is_direct_child,
    is_materialized_derived_property, kerml_construct_seed, kerml_emission_seed,
    merge_construct_seeds, merge_emission_seeds, modifier_value, pascal_case, sibling_state_id,
};
use mercurio_sysml::lowering::indexes::{build_local_alias_map, collect_stdlib_owner_features};
use mercurio_sysml::lowering::ir::ResolvedPackage;
use mercurio_sysml::lowering::mappings::{
    canonical_profile_id, collect_rule_expressions, validate_lowering_rules_against_mappings,
};
use mercurio_sysml::lowering::names::{
    direct_child_name, dotted_name_to_qualified_name, expand_import_namespace_prefix,
    import_namespace_prefix, qualified_name_suffix_matches, qualified_names_match,
    resolve_local_namespace_dot,
};
use mercurio_sysml::lowering::resolve::{
    feature_id_from_qualified_name, normalize_feature_target_id, scoped_reference_candidates,
    semantic_base_feature_fallback, unique_feature_match, unique_feature_match_excluding,
    unconjugated_type_name, unique_local_suffix_match, unique_suffix_match, usage_construct_stdlib_owner,
};
use mercurio_sysml::lowering::rules::{
    LoweringAstPattern, LoweringCollectRule, LoweringElaborationRule, LoweringEmitRule,
    LoweringPilotSources, LoweringRule, LoweringRuleSeed, has_runtime_collect_expression,
    has_runtime_elaboration_hook,
};
use mercurio_sysml::lowering::semantic_defaults::SemanticDefaultsSeed;
use mercurio_sysml::strmap::{StrMap, StrSet};

fn zero_span() -> SourceSpan {
    SourceSpan { start_line: 0, start_col: 0, end_line: 0, end_col: 0 }
}

fn strings(v: &[&str]) -> Vec<String> {
    v.iter().map(|s| s.to_string()).collect()
}

fn kerml_bundle() -> MappingBundle {
    MappingBundle::from_seeds(
        kerml_construct_seed(),
        kerml_emission_seed(),
        None,
        SemanticDefaultsSeed::default(),
    )
    .unwrap()
}

#[test]
fn expand_import_namespace_prefix_ignores_noop_expansion() {
    let span = zero_span();
    let name = QualifiedName {
        segments: vec!["Packets".to_string(), "packet data field".to_string()],
        span: span.clone(),
    };
    let mut namespace_aliases = StrMap::new();
    namespace_aliases.insert(
        "Packets".to_string(),
        QualifiedName { segments: vec!["Packets".to_string()], span },
    );
    let import_aliases = ImportAliases {
        value_aliases: StrMap::new(),
        namespace_aliases,
        ambiguous_value_aliases: StrSet::new(),
        ambiguous_namespace_aliases: StrSet::new(),
    };

    assert!(expand_import_namespace_prefix(&name, &StrMap::new(), &import_aliases).is_none());
}

#[test]
fn expand_import_namespace_prefix_still_expands_real_aliases() {
    let span = zero_span();
    let name = QualifiedName {
        segments: vec!["P".to_string(), "packet data field".to_string()],
        span: span.clone(),
    };
    let mut namespace_aliases = StrMap::new();
    namespace_aliases.insert(
        "P".to_string(),
        QualifiedName { segments: vec!["Packets".to_string()], span: span.clone() },
    );
    let import_aliases = ImportAliases {
        value_aliases: StrMap::new(),
        namespace_aliases,
        ambiguous_value_aliases: StrSet::new(),
        ambiguous_namespace_aliases: StrSet::new(),
    };

    let expanded = expand_import_namespace_prefix(&name, &StrMap::new(), &import_aliases).unwrap();
    assert_eq!(
        expanded.segments,
        vec!["Packets".to_string(), "packet data field".to_string()]
    );
    assert_eq!(expanded.span, span);
}

#[test]
fn import_aliases_win_over_local_aliases() {
    let span = zero_span();
    let name = QualifiedName { segments: strings(&["P", "x"]), span };
    let mut local = StrMap::new();
    local.insert("P".to_string(), QualifiedName { segments: strings(&["Local"]), span });
    let aliases = ImportAliases::default();
    let expanded = expand_import_namespace_prefix(&name, &local, &aliases).unwrap();
    assert_eq!(expanded.segments, strings(&["Local", "x"]));
    let mut imported = ImportAliases::default();
    imported
        .namespace_aliases
        .insert("P".to_string(), QualifiedName { segments: strings(&["A", "B"]), span });
    let expanded = expand_import_namespace_prefix(&name, &local, &imported).unwrap();
    assert_eq!(expanded.segments, strings(&["A", "B", "x"]));
}

#[test]
fn kerml_mapping_uses_base_kerml_metaclasses() {
    let mappings = kerml_bundle();

    assert_eq!(mappings.metaclass_for("Package").unwrap(), "KerML::Package");
    assert_eq!(mappings.metaclass_for("Import").unwrap(), "KerML::Import");
    assert_eq!(mappings.emission_for("KerML::Package").unwrap().kir_kind, "KerML::Package");
    assert_eq!(mappings.emission_for("KerML::Classifier").unwrap().kir_kind, "KerML::Core::Type");
}

#[test]
fn metaclass_falls_back_by_construct_suffix() {
    let mappings = kerml_bundle();
    assert_eq!(mappings.metaclass_for("PartUsage").unwrap(), "KerML::Feature");
    assert_eq!(mappings.metaclass_for("PartDefinition").unwrap(), "KerML::Classifier");
    let err = mappings.metaclass_for("Widget").unwrap_err();
    assert_eq!(err.message, "missing construct mapping `Widget`");
    let err = mappings.emission_for("SysML::Part").unwrap_err();
    assert_eq!(err.message, "missing emission mapping `SysML::Part`");
}

#[test]
fn keyword_constructs_come_from_the_registry_or_the_keyword() {
    let mappings = kerml_bundle();
    assert_eq!(mappings.definition_construct_for("struct"), "Classifier");
    assert_eq!(mappings.definition_construct_for("feature"), "FeatureDefinition");
    assert_eq!(mappings.definition_construct_for("part"), "PartDefinition");
    assert_eq!(mappings.usage_construct_for("doc"), "FeatureUsage");
    assert_eq!(mappings.usage_construct_for("port"), "PortUsage");
    assert_eq!(mappings.default_specialization_for_package("Package"), Some("KerML::Kernel::Package"));
    assert_eq!(mappings.default_specialization_for_definition("Classifier"), None);
    assert!(mappings.semantic_specializations_for_definition("Classifier").is_empty());
    assert_eq!(mappings.compatibility_library_aliases().len(), 7);
    assert!(mappings.lowering_rule_for_construct("Package").is_none());
}

fn rule(construct: &str, element: &str, node: &str, keyword: Option<&str>) -> LoweringRule {
    LoweringRule {
        construct: construct.to_string(),
        metaclass: "KerML::Classifier".to_string(),
        status: None,
        ast: LoweringAstPattern { node: node.to_string(), keyword: keyword.map(str::to_string) },
        collect: LoweringCollectRule {
            element: element.to_string(),
            name: "$ast.name".to_string(),
            owner: "$scope.package".to_string(),
            fields: StrMap::new(),
        },
        elaborate: Vec::new(),
        emit: LoweringEmitRule { id_template: "type.{qualified_name}".to_string(), properties: StrMap::new() },
        pilot_sources: LoweringPilotSources::default(),
    }
}

fn bundle_with_rules(rules: Vec<LoweringRule>) -> MappingBundle {
    MappingBundle::from_seeds(
        kerml_construct_seed(),
        kerml_emission_seed(),
        Some(LoweringRuleSeed { schema_version: 1, source: StrMap::new(), rules }),
        SemanticDefaultsSeed::default(),
    )
    .unwrap()
}

#[test]
fn lowering_rules_drive_keyword_constructs() {
    let mappings = bundle_with_rules(vec![
        rule("PartDefinition", "definition", "GenericDefinitionDecl", Some("part")),
        rule("PartUsage", "usage", "GenericUsageDecl", Some("part")),
    ]);
    assert_eq!(mappings.definition_construct_for("part"), "PartDefinition");
    assert_eq!(mappings.lowering_rule_for_ast("GenericUsageDecl", "part").unwrap().construct, "PartUsage");
    assert_eq!(mappings.lowering_rule_for_construct("PartUsage").unwrap().ast.node, "GenericUsageDecl");
}

#[test]
fn rule_validation_accepts_consistent_rules() {
    let rules = vec![rule("Classifier", "definition", "GenericDefinitionDecl", Some("classifier"))];
    let mappings = bundle_with_rules(Vec::new());
    let seed = LoweringRuleSeed { schema_version: 1, source: StrMap::new(), rules };
    assert!(validate_lowering_rules_against_mappings(Some(&seed), &mappings).is_ok());
    assert!(validate_lowering_rules_against_mappings(None, &mappings).is_ok());
}

#[test]
fn rule_validation_reports_each_kind_of_failure() {
    let mappings = bundle_with_rules(Vec::new());
    let check = |r: LoweringRule| {
        let seed = LoweringRuleSeed { schema_version: 1, source: StrMap::new(), rules: vec![r] };
        validate_lowering_rules_against_mappings(Some(&seed), &mappings).unwrap_err().message
    };

    let mut bad_collect = rule("Classifier", "definition", "GenericDefinitionDecl", Some("classifier"));
    bad_collect.collect.fields.insert("weight".to_string(), "$ast.weight".to_string());
    assert_eq!(
        check(bad_collect),
        "lowering rule `Classifier` collect expression `$ast.weight` in `weight` has no runtime support"
    );

    let wrong_keyword = rule("Widget", "definition", "GenericDefinitionDecl", Some("classifier"));
    assert_eq!(
        check(wrong_keyword),
        "lowering rule `Widget` definition keyword `classifier` does not resolve to its construct"
    );

    let wrong_usage = rule("Widget", "usage", "GenericUsageDecl", Some("feature"));
    assert_eq!(
        check(wrong_usage),
        "lowering rule `Widget` usage keyword `feature` does not resolve to its construct"
    );

    let mut no_emission = rule("Classifier", "definition", "GenericDefinitionDecl", None);
    no_emission.metaclass = "SysML::Thing".to_string();
    assert_eq!(check(no_emission), "missing emission mapping `SysML::Thing`");

    let mut template = rule("Classifier", "definition", "GenericDefinitionDecl", None);
    template.emit.id_template = "cls.{name}".to_string();
    assert_eq!(
        check(template),
        "lowering rule `Classifier` id template `cls.{name}` does not match emission mapping `KerML::Classifier` template `type.{qualified_name}`"
    );

    let mut property = rule("Classifier", "definition", "GenericDefinitionDecl", None);
    property.emit.properties.insert("color".to_string(), "{color}".to_string());
    property.emit.properties.insert("name".to_string(), "{name}".to_string());
    assert_eq!(
        check(property),
        "lowering rule `Classifier` property `color` is missing from emission mapping `KerML::Classifier`"
    );

    let mut hook = rule("Classifier", "definition", "GenericDefinitionDecl", None);
    hook.elaborate.push(LoweringElaborationRule {
        id: "connection-end-direction".to_string(),
        when: None,
        set: StrMap::new(),
        note: None,
    });
    hook.elaborate.push(LoweringElaborationRule {
        id: "paint-it".to_string(),
        when: None,
        set: StrMap::new(),
        note: None,
    });
    assert_eq!(check(hook), "lowering rule `Classifier` elaboration `paint-it` has no runtime hook");
}

#[test]
fn runtime_hook_and_collect_expression_tables() {
    assert!(has_runtime_elaboration_hook("connection-end-direction"));
    assert!(!has_runtime_elaboration_hook("connection-end"));
    assert!(has_runtime_collect_expression("$ast.members[modifier=end]"));
    assert!(has_runtime_collect_expression("~$ast.name"));
    assert!(!has_runtime_collect_expression("$ast.weight"));
}

#[test]
fn collect_rule_expressions_lists_slots_then_fields() {
    let mut r = rule("Classifier", "definition", "GenericDefinitionDecl", None);
    r.collect.fields.insert("z".to_string(), "$ast.ty".to_string());
    r.collect.fields.insert("a".to_string(), "$ast.docs".to_string());
    assert_eq!(
        collect_rule_expressions(&r),
        vec![
            ("element", "definition"),
            ("name", "$ast.name"),
            ("owner", "$scope.package"),
            ("a", "$ast.docs"),
            ("z", "$ast.ty"),
        ]
    );
}

#[test]
fn require_collect_expression_checks_one_slot() {
    let r = rule("Classifier", "definition", "GenericDefinitionDecl", None);
    assert!(require_collect_expression(&r, "name", "$ast.name").is_ok());
    assert!(require_collect_expression(&r, "other", "").is_ok());
    let err = require_collect_expression(&r, "owner", "$scope.owner").unwrap_err();
    assert_eq!(
        err.message,
        "lowering rule `Classifier` collect expression `$scope.package` in `owner` is not executable here"
    );
}

#[test]
fn canonical_profile_maps_the_pilot_id() {
    assert_eq!(canonical_profile_id("sysml-2.0-pilot-0.57.0"), "sysml-2.0-metamodel-0.57.0");
    assert_eq!(canonical_profile_id("kerml-bootstrap"), "kerml-bootstrap");
}

#[test]
fn kerml_seeds_hold_the_kernel_constructs() {
    let seed = kerml_construct_seed();
    assert_eq!(seed.keyword_registry.definitions.get("assoc").unwrap(), "Classifier");
    assert_eq!(seed.keyword_registry.definitions.get("feature").unwrap(), "FeatureDefinition");
    assert_eq!(seed.keyword_registry.definitions.len(), 12);
    assert_eq!(seed.keyword_registry.usages.len(), 4);
    assert_eq!(seed.constructs.len(), 5);
    assert_eq!(seed.constructs[3].construct, "FeatureDefinition");
    let emission = kerml_emission_seed();
    let feature = emission.metaclasses.get("KerML::Feature").unwrap();
    assert_eq!(feature.id_template, "feature.{owner_path}.{declared_name}");
    assert_eq!(feature.emit.properties.get("type").unwrap(), "{type_ref}");
    assert_eq!(feature.emit.properties.len(), 9);
}

#[test]
fn emission_rule_keeps_the_last_value_of_a_property() {
    let r = emission_rule("K", "t.{id}", &[("a", "1"), ("b", "2"), ("a", "3")]);
    assert_eq!(r.kir_kind, "K");
    assert_eq!(r.emit.properties.len(), 2);
    assert_eq!(r.emit.properties.get("a").unwrap(), "3");
}

#[test]
fn merged_seeds_let_the_overlay_win() {
    let mut overlay = kerml_construct_seed();
    overlay.keyword_registry.definitions = StrMap::new();
    overlay.keyword_registry.definitions.insert("part".to_string(), "PartDefinition".to_string());
    overlay.keyword_registry.definitions.insert("class".to_string(), "ClassDef".to_string());
    overlay.constructs = vec![
        MetamodelConstructEntry { construct: "Package".to_string(), metaclass: "SysML::Package".to_string() },
        MetamodelConstructEntry { construct: "Action".to_string(), metaclass: "SysML::Action".to_string() },
    ];
    let merged = merge_construct_seeds(kerml_construct_seed(), overlay);
    assert_eq!(merged.keyword_registry.definitions.get("part").unwrap(), "PartDefinition");
    assert_eq!(merged.keyword_registry.definitions.get("class").unwrap(), "ClassDef");
    assert_eq!(merged.keyword_registry.definitions.get("struct").unwrap(), "Classifier");
    let constructs: Vec<(String, String)> = merged
        .constructs
        .iter()
        .map(|e| (e.construct.clone(), e.metaclass.clone()))
        .collect();
    assert_eq!(
        constructs,
        vec![
            ("Action".to_string(), "SysML::Action".to_string()),
            ("Classifier".to_string(), "KerML::Classifier".to_string()),
            ("FeatureDefinition".to_string(), "KerML::Classifier".to_string()),
            ("FeatureUsage".to_string(), "KerML::Feature".to_string()),
            ("Import".to_string(), "KerML::Import".to_string()),
            ("Package".to_string(), "SysML::Package".to_string()),
        ]
    );
    let bundle = MappingBundle::from_seeds(merged, kerml_emission_seed(), None, SemanticDefaultsSeed::default()).unwrap();
    assert_eq!(bundle.metaclass_for("Package").unwrap(), "SysML::Package");
    assert_eq!(bundle.metaclass_for("Classifier").unwrap(), "KerML::Classifier");
}

#[test]
fn merged_emission_seeds_let_the_overlay_win() {
    let mut overlay = KirEmissionSeed { metaclasses: StrMap::new() };
    overlay
        .metaclasses
        .insert("KerML::Package".to_string(), emission_rule("SysML::Package", "pkg.{qualified_name}", &[]));
    let merged = merge_emission_seeds(kerml_emission_seed(), overlay);
    assert_eq!(merged.metaclasses.len(), 4);
    assert_eq!(merged.metaclasses.get("KerML::Package").unwrap().kir_kind, "SysML::Package");
    assert_eq!(merged.metaclasses.get("KerML::Import").unwrap().kir_kind, "KerML::Import");
}

#[test]
fn name_helpers() {
    assert!(qualified_name_suffix_matches(&strings(&["A", "B", "C"]), &strings(&["B", "C"])));
    assert!(!qualified_name_suffix_matches(&strings(&["A", "B"]), &strings(&["A"])));
    assert!(!qualified_name_suffix_matches(&strings(&["C"]), &strings(&["B", "C"])));
    let a = QualifiedName { segments: strings(&["X", "Y"]), span: zero_span() };
    let b = QualifiedName { segments: strings(&["Y"]), span: zero_span() };
    assert!(qualified_names_match(&a, &b));
    assert!(qualified_names_match(&b, &a));
    assert_eq!(import_namespace_prefix("Domain::Vehicles::*"), "Domain::Vehicles");
    assert_eq!(import_namespace_prefix("Domain::Vehicles::**"), "Domain::Vehicles");
    assert_eq!(import_namespace_prefix("Domain::"), "Domain");
    assert_eq!(import_namespace_prefix("Domain"), "Domain");
    assert_eq!(direct_child_name("Pkg.child", "Pkg."), Some("child"));
    assert_eq!(direct_child_name("Pkg.child.grand", "Pkg."), None);
    assert_eq!(direct_child_name("Pkg.", "Pkg."), None);
    assert_eq!(direct_child_name("Other.child", "Pkg."), None);
    let q = dotted_name_to_qualified_name("a.b.c", &zero_span());
    assert_eq!(q.segments, strings(&["a", "b", "c"]));
}

fn package(qualified_name: &str) -> ResolvedPackage {
    ResolvedPackage {
        owner_package_qualified_name: None,
        qualified_name: qualified_name.to_string(),
        declared_name: qualified_name.rsplit('.').next().unwrap().to_string(),
        docs: Vec::new(),
        span: zero_span(),
    }
}

#[test]
fn local_namespaces_resolve_from_the_innermost_scope() {
    let packages = vec![package("Root"), package("Root.A"), package("Root.A.Inner"), package("Root.B.Inner")];
    assert_eq!(
        resolve_local_namespace_dot("Inner", "Root.A", &None, &packages),
        Some("Root.A.Inner".to_string())
    );
    assert_eq!(resolve_local_namespace_dot("A::Inner", "Root.B", &None, &packages), Some("Root.A.Inner".to_string()));
    assert_eq!(resolve_local_namespace_dot("Inner", "Elsewhere", &None, &packages), None);
    assert_eq!(
        resolve_local_namespace_dot("A", "", &Some("Root".to_string()), &packages),
        Some("Root.A".to_string())
    );
}

#[test]
fn qualified_names_and_segments() {
    assert_eq!(qualify_name(&strings(&["A", "B"]), "C"), "A.B.C");
    assert_eq!(qualify_name(&[], "C"), "C");
    assert_eq!(usage_qualified_name("root", "x"), "x");
    assert_eq!(usage_qualified_name("Pkg.Part", "x"), "Pkg.Part.x");
    assert_eq!(qualify_segments(&strings(&["A"]), &strings(&["B", "C"])), strings(&["A", "B", "C"]));
}

#[test]
fn dedupe_keeps_first_occurrences() {
    assert_eq!(dedupe_refs(strings(&["a", "b", "a", "c", "b"])), strings(&["a", "b", "c"]));
    assert!(dedupe_refs(Vec::new()).is_empty());
}

#[test]
fn emission_string_helpers() {
    assert_eq!(pascal_case("part"), "Part");
    assert_eq!(pascal_case("Part"), "Part");
    assert_eq!(pascal_case(""), "");
    assert_eq!(pascal_case("éa"), "éa");
    assert!(is_materialized_derived_property("shortName"));
    assert!(!is_materialized_derived_property("owner"));
    assert_eq!(exact_placeholder("{name}"), Some("name"));
    assert_eq!(exact_placeholder("{}"), Some(""));
    assert_eq!(exact_placeholder("{"), None);
    assert_eq!(exact_placeholder("x{name}"), None);
    let mods = strings(&["end", "direction=in", "direction=out"]);
    assert_eq!(modifier_value(&mods, "direction"), Some("in"));
    assert_eq!(modifier_value(&mods, "end"), None);
    assert_eq!(sibling_state_id("Machine", "Idle"), Some("state.Machine.Idle".to_string()));
    assert_eq!(sibling_state_id("Machine", "Other.Idle"), Some("state.Other.Idle".to_string()));
    assert_eq!(display_name_for_ref("ScalarValues::Real"), "Real");
    assert_eq!(display_name_for_ref("a.b::c.d"), "d");
    assert_eq!(display_name_for_ref("plain"), "plain");
    assert!(is_direct_child("Pkg.child", "Pkg"));
    assert!(!is_direct_child("Pkg.child.grand", "Pkg"));
    assert!(!is_direct_child("Pkgchild", "Pkg"));
    assert!(is_data_value_like_ref("ScalarValues::Boolean"));
    assert!(is_data_value_like_ref("ISQ::MassValue"));
    assert!(!is_data_value_like_ref("Parts::Part"));
    assert!(all_data_value_like_refs(&strings(&["Real", "x.LengthValue"])));
    assert!(!all_data_value_like_refs(&[]));
    assert!(!all_data_value_like_refs(&strings(&["Real", "Part"])));
}

#[test]
fn resolution_helpers() {
    let ids = strings(&["Items::Item::shape", "Other::shape", "Quantities::TensorQuantityValue::num"]);
    assert_eq!(semantic_base_feature_fallback("shape", &ids), Some("Items::Item::shape".to_string()));
    assert_eq!(semantic_base_feature_fallback("radius", &ids), None);
    assert_eq!(semantic_base_feature_fallback("color", &ids), None);
    assert_eq!(unique_suffix_match("num", &ids), Some("Quantities::TensorQuantityValue::num".to_string()));
    assert_eq!(unique_suffix_match("shape", &ids), None);
    assert_eq!(usage_construct_stdlib_owner("SendUsage"), Some("Actions::SendAction"));
    assert_eq!(usage_construct_stdlib_owner("PartUsage"), None);
    assert_eq!(feature_id_from_qualified_name("A.b"), "feature.A.b");
    assert_eq!(normalize_feature_target_id("A.b"), "feature.A.b");
    assert_eq!(normalize_feature_target_id("feature.A.b"), "feature.A.b");
    assert_eq!(normalize_feature_target_id("Lib::x"), "Lib::x");
    assert_eq!(scoped_reference_candidates("x", "A.B"), strings(&["A.B.x", "A.x", "x"]));
    assert_eq!(scoped_reference_candidates("y.x", "A.B"), strings(&["y.x"]));
    assert_eq!(scoped_reference_candidates("x", ""), strings(&[".x", "x"]));

    let mut index: StrMap<StrMap<String>> = StrMap::new();
    let mut car = StrMap::new();
    car.insert("wheel".to_string(), "Pkg.Car.wheel".to_string());
    car.insert("engine".to_string(), "Pkg.Car.engine".to_string());
    let mut bike = StrMap::new();
    bike.insert("wheel".to_string(), "Pkg.Bike.wheel".to_string());
    index.insert("Pkg.Car".to_string(), car);
    index.insert("Pkg.Bike".to_string(), bike);
    assert_eq!(unique_feature_match("engine", &index), Some("Pkg.Car.engine".to_string()));
    assert_eq!(unique_feature_match("wheel", &index), None);
    assert_eq!(unique_feature_match_excluding("wheel", &index, "Pkg.Car.wheel"), Some("Pkg.Bike.wheel".to_string()));

    let mut defs = StrMap::new();
    defs.insert("Pkg.Car".to_string(), "type.Pkg.Car".to_string());
    defs.insert("Other.Car".to_string(), "type.Other.Car".to_string());
    defs.insert("Pkg.Bike".to_string(), "type.Pkg.Bike".to_string());
    assert_eq!(unique_local_suffix_match("Bike", &defs), Some("type.Pkg.Bike".to_string()));
    assert_eq!(unique_local_suffix_match("Car", &defs), None);
    assert_eq!(unique_local_suffix_match("Pkg.Car", &defs), Some("type.Pkg.Car".to_string()));
}

#[test]
fn stdlib_owner_features_inherit_and_override() {
    let mut direct: StrMap<StrMap<String>> = StrMap::new();
    let mut base = StrMap::new();
    base.insert("x".to_string(), "Base::x".to_string());
    base.insert("y".to_string(), "Base::y".to_string());
    let mut derived = StrMap::new();
    derived.insert("y".to_string(), "Derived::y".to_string());
    direct.insert("Base".to_string(), base);
    direct.insert("Derived".to_string(), derived);
    let mut specs: StrMap<Vec<String>> = StrMap::new();
    specs.insert("Derived".to_string(), strings(&["Base"]));
    specs.insert("Base".to_string(), strings(&["Derived"]));
    let mut resolved = StrMap::new();
    let mut resolving = StrSet::new();
    let features =
        collect_stdlib_owner_features("Derived", &direct, &specs, &mut resolved, &mut resolving);
    assert_eq!(features.get("x").unwrap(), "Base::x");
    assert_eq!(features.get("y").unwrap(), "Derived::y");
    assert_eq!(resolving.len(), 0);
    assert!(resolved.contains_key("Derived"));
    assert!(resolved.contains_key("Base"));
    let again =
        collect_stdlib_owner_features("Derived", &direct, &specs, &mut resolved, &mut resolving);
    assert_eq!(again.len(), 2);
}

fn qn(segments: &[&str]) -> QualifiedName {
    QualifiedName { segments: strings(segments), span: zero_span() }
}

fn alias(qualified: &str, declared: &str, target: &[&str]) -> CollectedAlias {
    CollectedAlias { qualified_name: qualified.to_string(), declared_name: declared.to_string(), target: qn(target) }
}

#[test]
fn local_aliases_resolve_by_qualified_and_unique_simple_name() {
    let aliases = vec![
        alias("P.Car", "Car", &["Vehicles", "Car"]),
        alias("P.Q.Wheel", "Wheel", &["Parts", "Wheel"]),
        alias("R.Wheel", "Wheel", &["Other", "Wheel"]),
        alias("P.Car", "Car", &["Vehicles", "Automobile"]),
    ];
    let map = build_local_alias_map(&aliases);
    // A later alias under the same qualified name wins.
    assert_eq!(map.get("P.Car").unwrap().segments, strings(&["Vehicles", "Automobile"]));
    assert_eq!(map.get("R.Wheel").unwrap().segments, strings(&["Other", "Wheel"]));
    // `Car` was declared twice, `Wheel` twice: neither simple name resolves.
    assert!(map.get("Car").is_none());
    assert!(map.get("Wheel").is_none());
    assert_eq!(map.len(), 3);

    let single = build_local_alias_map(&[alias("P.Car", "Car", &["Vehicles", "Car"])]);
    assert_eq!(single.get("Car").unwrap().segments, strings(&["Vehicles", "Car"]));
    assert_eq!(single.len(), 2);
}

#[test]
fn simple_alias_names_do_not_override_qualified_ones() {
    let aliases = vec![alias("Car", "Auto", &["A"]), alias("P.Car", "Car", &["B"])];
    let map = build_local_alias_map(&aliases);
    assert_eq!(map.get("Car").unwrap().segments, strings(&["A"]));
    assert_eq!(map.get("Auto").unwrap().segments, strings(&["A"]));
}

#[test]
fn conjugated_type_names_lose_their_tilde() {
    let r = unconjugated_type_name(&qn(&["~Port", "x"])).unwrap();
    assert_eq!(r.segments, strings(&["Port", "x"]));
    assert!(unconjugated_type_name(&qn(&["Port"])).is_none());
    assert!(unconjugated_type_name(&qn(&["~"])).is_none());
    assert!(unconjugated_type_name(&qn(&[])).is_none());
}
