use mercurio_sysml::kerml::token::SourceSpan;
use mercurio_sysml::lowering::bundle::MappingBundle;
use mercurio_sysml::lowering::emit::{emission_rule, kerml_construct_seed, kerml_emission_seed};
use mercurio_sysml::lowering::ids::{
    build_package_member_ids, definition_owner_id, id_template_for_construct, package_owner_id,
    render_conjugated_port_definition_id, render_definition_id, render_owned_usage_tree_ids,
    render_package_id, render_sibling_usage_ids, render_string, render_usage_id, template_for_construct,
    validate_rule_emission_compatibility,
};
use mercurio_sysml::lowering::ir::{ResolvedDefinition, ResolvedModule, ResolvedPackage, ResolvedUsage};
use mercurio_sysml::lowering::rules::{
    LoweringAstPattern, LoweringCollectRule, LoweringEmitRule, LoweringPilotSources, LoweringRule,
    LoweringRuleSeed,
};
use mercurio_sysml::lowering::semantic_defaults::{
    DefinitionCompanionPolicySeed, SemanticDefaultsSeed, UsageIdPolicySeed,
};
use mercurio_sysml::strmap::StrMap;

fn span(line: usize, col: usize) -> SourceSpan {
    SourceSpan { start_line: line, start_col: col, end_line: line, end_col: col + 1 }
}

fn kerml_bundle() -> MappingBundle {
    MappingBundle::from_seeds(kerml_construct_seed(), kerml_emission_seed(), None, SemanticDefaultsSeed::default())
        .unwrap()
}

fn bundle_with(defaults: SemanticDefaultsSeed, rules: Option<Vec<LoweringRule>>) -> MappingBundle {
    MappingBundle::from_seeds(
        kerml_construct_seed(),
        kerml_emission_seed(),
        rules.map(|rules| LoweringRuleSeed { schema_version: 1, source: StrMap::new(), rules }),
        defaults,
    )
    .unwrap()
}

fn rule(construct: &str, metaclass: &str, id_template: &str, properties: &[(&str, &str)]) -> LoweringRule {
    let mut props = StrMap::new();
    for (k, v) in properties {
        props.insert(k.to_string(), v.to_string());
    }
    LoweringRule {
        construct: construct.to_string(),
        metaclass: metaclass.to_string(),
        status: None,
        ast: LoweringAstPattern { node: "GenericDefinitionDecl".to_string(), keyword: None },
        collect: LoweringCollectRule {
            element: "definition".to_string(),
            name: "$ast.name".to_string(),
            owner: "$scope.package".to_string(),
            fields: StrMap::new(),
        },
        elaborate: Vec::new(),
        emit: LoweringEmitRule { id_template: id_template.to_string(), properties: props },
        pilot_sources: LoweringPilotSources::default(),
    }
}

fn package(qualified_name: &str) -> ResolvedPackage {
    ResolvedPackage {
        owner_package_qualified_name: None,
        qualified_name: qualified_name.to_string(),
        declared_name: qualified_name.rsplit('.').next().unwrap().to_string(),
        docs: Vec::new(),
        span: span(1, 1),
    }
}

fn definition(construct: &str, qualified_name: &str) -> ResolvedDefinition {
    ResolvedDefinition {
        construct: construct.to_string(),
        qualified_name: qualified_name.to_string(),
        declared_name: qualified_name.rsplit('.').next().unwrap().to_string(),
        is_abstract: false,
        specializes: Vec::new(),
        members: Vec::new(),
        docs: Vec::new(),
        span: span(3, 5),
    }
}

fn usage(construct: &str, owner: &str, name: &str, line: usize, col: usize) -> ResolvedUsage {
    ResolvedUsage {
        construct: construct.to_string(),
        owner_construct: "Package".to_string(),
        owner_qualified_name: owner.to_string(),
        qualified_name: format!("{}.{}", owner, name),
        declared_name: name.to_string(),
        is_implicit_name: false,
        has_explicit_type: false,
        type_ref: None,
        additional_type_refs: Vec::new(),
        reference_target: None,
        allocation_source: None,
        allocation_target: None,
        metadata_properties: StrMap::new(),
        multiplicity: None,
        expression: None,
        is_derived: false,
        specializes: Vec::new(),
        specialized_features: Vec::new(),
        subsetted_features: Vec::new(),
        redefined_features: Vec::new(),
        members: Vec::new(),
        modifiers: Vec::new(),
        docs: Vec::new(),
        span: span(line, col),
    }
}

fn context(pairs: &[(&str, &str)]) -> StrMap<String> {
    let mut m = StrMap::new();
    for (k, v) in pairs {
        m.insert(k.to_string(), v.to_string());
    }
    m
}

#[test]
fn render_string_fills_every_placeholder_and_keeps_unknown_ones() {
    let ctx = context(&[("a", "1"), ("b", "two")]);
    assert_eq!(render_string("x.{a}.{b}.{a}", &ctx), "x.1.two.1");
    assert_eq!(render_string("x.{c}", &ctx), "x.{c}");
    assert_eq!(render_string("plain", &StrMap::new()), "plain");
}

#[test]
fn render_string_replaces_in_key_order() {
    // `a`'s value introduces a `{b}` placeholder that is filled afterwards.
    let ctx = context(&[("a", "{b}"), ("b", "v")]);
    assert_eq!(render_string("{a}", &ctx), "v");
}

#[test]
fn package_and_definition_ids_use_the_qualified_name() {
    let mappings = kerml_bundle();
    assert_eq!(render_package_id(&package("Root.A"), &mappings).unwrap(), "pkg.Root.A");
    assert_eq!(render_definition_id(&definition("Classifier", "Root.A.C"), &mappings).unwrap(), "type.Root.A.C");
    let err = render_definition_id(&definition("Widget", "Root.W"), &mappings).unwrap_err();
    assert_eq!(err.message, "missing construct mapping `Widget`");
    assert!(err.span.is_none());
}

#[test]
fn definition_owner_is_the_enclosing_package() {
    let mappings = kerml_bundle();
    assert_eq!(definition_owner_id(&definition("Classifier", "Root.A.C"), &mappings).unwrap(), Some("pkg.Root.A".to_string()));
    assert_eq!(definition_owner_id(&definition("Classifier", "C"), &mappings).unwrap(), None);
}

#[test]
fn package_owner_of_a_usage() {
    let ids = context(&[("Root.A", "pkg.custom")]);
    assert_eq!(package_owner_id(&usage("FeatureUsage", "root", "x", 1, 1), &ids), "pkg.root");
    assert_eq!(package_owner_id(&usage("FeatureUsage", "Root.A", "x", 1, 1), &ids), "pkg.custom");
    assert_eq!(package_owner_id(&usage("FeatureUsage", "Root.B", "x", 1, 1), &ids), "pkg.Root.B");
}

#[test]
fn templates_come_from_fitting_rules_or_the_emission_mapping() {
    let mappings = kerml_bundle();
    assert_eq!(template_for_construct("Package", &mappings).unwrap(), "pkg.{qualified_name}");
    assert_eq!(template_for_construct("PartUsage", &mappings).unwrap(), "feature.{owner_path}.{declared_name}");
    let err = template_for_construct("Widget", &mappings).unwrap_err();
    assert_eq!(err.message, "missing construct mapping `Widget`");

    let with_rule = bundle_with(
        SemanticDefaultsSeed::default(),
        Some(vec![rule("Classifier", "KerML::Classifier", "type.{qualified_name}", &[("name", "{name}")])]),
    );
    assert_eq!(template_for_construct("Classifier", &with_rule).unwrap(), "type.{qualified_name}");
    let emission = with_rule.emission_for("KerML::Classifier").unwrap();
    assert_eq!(
        id_template_for_construct("Classifier", "KerML::Classifier", emission, &with_rule).unwrap(),
        "type.{qualified_name}"
    );

    let misfit = bundle_with(
        SemanticDefaultsSeed::default(),
        Some(vec![rule("Classifier", "KerML::Classifier", "cls.{qualified_name}", &[])]),
    );
    let err = template_for_construct("Classifier", &misfit).unwrap_err();
    assert_eq!(
        err.message,
        "lowering rule `Classifier` id template `cls.{qualified_name}` does not match emission template `type.{qualified_name}`"
    );
}

#[test]
fn rule_compatibility_reports_each_kind_of_failure() {
    let emission = emission_rule("KerML::Core::Type", "type.{qualified_name}", &[("name", "{name}")]);
    let fits = rule("Classifier", "KerML::Classifier", "type.{qualified_name}", &[("name", "{name}")]);
    assert!(validate_rule_emission_compatibility(&fits, "KerML::Classifier", &emission).is_ok());

    let err = validate_rule_emission_compatibility(&fits, "KerML::Feature", &emission).unwrap_err();
    assert_eq!(
        err.message,
        "lowering rule `Classifier` targets `KerML::Classifier` but active mapping uses `KerML::Feature`"
    );

    let other_template = rule("Classifier", "KerML::Classifier", "t.{qualified_name}", &[]);
    let err = validate_rule_emission_compatibility(&other_template, "KerML::Classifier", &emission).unwrap_err();
    assert_eq!(
        err.message,
        "lowering rule `Classifier` id template `t.{qualified_name}` does not match emission template `type.{qualified_name}`"
    );

    let extra = rule("Classifier", "KerML::Classifier", "type.{qualified_name}", &[("name", "{name}"), ("zeta", "{z}")]);
    let err = validate_rule_emission_compatibility(&extra, "KerML::Classifier", &emission).unwrap_err();
    assert_eq!(
        err.message,
        "lowering rule `Classifier` emits property `zeta` missing from active emission mapping `KerML::Classifier`"
    );
    assert!(err.span.is_none());
}

#[test]
fn usage_ids_and_source_locations() {
    let mappings = kerml_bundle();
    let u = usage("FeatureUsage", "Root.A", "speed", 4, 9);
    assert_eq!(render_usage_id(&u, "pkg.Root.A", &mappings).unwrap(), "feature.Root.A.speed");

    let mut defaults = SemanticDefaultsSeed::default();
    defaults.usage_id_policies.insert(
        "FeatureUsage".to_string(),
        UsageIdPolicySeed { append_source_location_if_missing_start_col: true },
    );
    let located = bundle_with(defaults, None);
    assert_eq!(render_usage_id(&u, "pkg.Root.A", &located).unwrap(), "feature.Root.A.speed.4_9");
    // A name that already ends with `.col` gets nothing appended.
    let ends_with_col = usage("FeatureUsage", "Root.A", "9", 4, 9);
    assert_eq!(render_usage_id(&ends_with_col, "pkg.Root.A", &located).unwrap(), "feature.Root.A.9");

    let err = render_usage_id(&usage("Widget", "Root.A", "w", 1, 1), "pkg.Root.A", &mappings).unwrap_err();
    assert_eq!(err.message, "missing construct mapping `Widget`");
}

#[test]
fn sibling_ids_are_disambiguated_only_when_they_clash() {
    let mappings = kerml_bundle();
    let usages = vec![
        usage("FeatureUsage", "Root.A", "x", 2, 3),
        usage("FeatureUsage", "Root.A", "y", 3, 3),
        usage("FeatureUsage", "Root.A", "x", 5, 7),
    ];
    let ids = render_sibling_usage_ids(&usages, "pkg.Root.A", &mappings).unwrap();
    assert_eq!(ids, vec!["feature.Root.A.x.2_3", "feature.Root.A.y", "feature.Root.A.x.5_7"]);
    let empty: Vec<ResolvedUsage> = Vec::new();
    assert!(render_sibling_usage_ids(&empty, "pkg.Root.A", &mappings).unwrap().is_empty());
}

#[test]
fn owned_usage_tree_ids_skip_non_owned_members() {
    let mut defaults = SemanticDefaultsSeed::default();
    defaults.usage_context.non_owned_member_constructs.push("ReferenceUsage".to_string());
    let mappings = bundle_with(defaults, None);
    let usages = vec![
        usage("FeatureUsage", "Root.A", "x", 2, 3),
        usage("ReferenceUsage", "Root.A", "r", 3, 3),
        usage("FeatureUsage", "Root.A", "x", 5, 7),
    ];
    let plain = render_owned_usage_tree_ids(&usages, "pkg.Root.A", &mappings, false).unwrap();
    assert_eq!(plain, vec!["feature.Root.A.x", "feature.Root.A.x"]);
    let distinct = render_owned_usage_tree_ids(&usages, "pkg.Root.A", &mappings, true).unwrap();
    assert_eq!(distinct, vec!["feature.Root.A.x.2_3", "feature.Root.A.x.5_7"]);
}

#[test]
fn conjugated_port_companion_ids() {
    let mut defaults = SemanticDefaultsSeed::default();
    defaults.definition_companion_policies.insert(
        "PortDefinition".to_string(),
        DefinitionCompanionPolicySeed { generated_companion_construct: Some("ConjugatedPortDefinition".to_string()) },
    );
    let mappings = bundle_with(defaults, None);
    let port = definition("PortDefinition", "Root.P");
    assert_eq!(render_conjugated_port_definition_id(&port, &mappings).unwrap(), "type.Root.P");
    let err = render_conjugated_port_definition_id(&definition("PartDefinition", "Root.Q"), &mappings).unwrap_err();
    assert_eq!(err.message, "definition `PartDefinition` has no generated companion construct");
    assert_eq!(err.span, Some(span(3, 5)));
}

#[test]
fn package_members_list_packages_then_definitions_then_usages() {
    let mut defaults = SemanticDefaultsSeed::default();
    defaults.usage_context.non_owned_member_constructs.push("ReferenceUsage".to_string());
    let mappings = bundle_with(defaults, None);
    let module = ResolvedModule {
        packages: vec![package("Root"), package("Root.A"), package("Root.A.B")],
        imports: Vec::new(),
        definitions: vec![definition("Classifier", "Root.C"), definition("Classifier", "Root.A.D")],
        usages: vec![
            usage("FeatureUsage", "Root", "u", 1, 1),
            usage("ReferenceUsage", "Root", "r", 2, 1),
            usage("FeatureUsage", "Root.A", "v", 3, 1),
        ],
    };
    let package_ids = context(&[("Root", "pkg.Root"), ("Root.A", "pkg.Root.A"), ("Root.A.B", "pkg.Root.A.B")]);
    let definition_ids = context(&[("Root.C", "type.Root.C"), ("Root.A.D", "type.Root.A.D")]);
    let usage_ids = context(&[("Root.u", "feature.Root.u"), ("Root.r", "feature.Root.r"), ("Root.A.v", "feature.Root.A.v")]);
    let members = build_package_member_ids(&module, &package_ids, &definition_ids, &usage_ids, &mappings);
    assert_eq!(members.len(), 3);
    assert_eq!(members.get("Root").unwrap(), &vec!["pkg.Root.A", "type.Root.C", "feature.Root.u"]);
    assert_eq!(members.get("Root.A").unwrap(), &vec!["pkg.Root.A.B", "type.Root.A.D", "feature.Root.A.v"]);
    assert!(members.get("Root.A.B").unwrap().is_empty());
}
