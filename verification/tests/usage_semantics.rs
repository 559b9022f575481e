use mercurio_sysml::kerml::token::SourceSpan;
use mercurio_sysml::lowering::bundle::MappingBundle;
use mercurio_sysml::lowering::elaborate::{
    ReferenceUsageSemantics, has_elaboration_rule, should_annotate_connection_end_direction,
    usage_all_type_refs,
};
use mercurio_sysml::lowering::emit::{kerml_construct_seed, kerml_emission_seed};
use mercurio_sysml::lowering::ir::{MultiplicityRange, ResolvedDefinition, ResolvedUsage};
use mercurio_sysml::lowering::rules::{
    LoweringAstPattern, LoweringCollectRule, LoweringElaborationRule, LoweringEmitRule,
    LoweringPilotSources, LoweringRule, LoweringRuleSeed,
};
use mercurio_sysml::lowering::semantic_defaults::{
    ReferenceModifierSemanticsSeed, SemanticDefaultsSeed, SpecializedFeatureSubsetDefaultSeed,
    UsageActionSeed, UsageFamilyDefaultSeed, UsagePropertyDefaultSeed,
    UsageSpecializationPolicySeed, UsageSubsetDefaultSeed, UsageTypeDefaultSeed,
};
use mercurio_sysml::lowering::usage_semantics::{
    apply_reference_modifier_semantics, materialized_usage_specialization_refs,
    reference_direction_from_modifiers, resolve_semantic_default_value,
    resolve_usage_action_target, resolve_usage_property_default_value,
    semantic_specializations_for_definition, semantic_specializations_for_usage,
    usage_action_applies, usage_direction, usage_display_name, usage_is_end,
    usage_property_default_applies, usage_source_span, usage_specialization_refs,
    usage_subsetted_feature_refs, usage_type_ref,
};
use mercurio_sysml::strmap::StrMap;

fn strings(v: &[&str]) -> Vec<String> {
    v.iter().map(|s| s.to_string()).collect()
}

fn span(start: usize, end: usize) -> SourceSpan {
    SourceSpan { start_line: start, start_col: 1, end_line: end, end_col: 1 }
}

fn usage(construct: &str, owner_construct: &str) -> ResolvedUsage {
    ResolvedUsage {
        construct: construct.to_string(),
        owner_construct: owner_construct.to_string(),
        owner_qualified_name: "Pkg.Owner".to_string(),
        qualified_name: "Pkg.Owner.thing".to_string(),
        declared_name: "thing".to_string(),
        is_implicit_name: false,
        has_explicit_type: false,
        type_ref: None,
        additional_type_refs: Vec::new(),
        reference_target: None,
        allocation_source: None,
        allocation_target: None,
        metadata_properties: StrMap::new(),
        multiplicity: None,
        expression: None,
        is_derived: false,
        specializes: Vec::new(),
        specialized_features: Vec::new(),
        subsetted_features: Vec::new(),
        redefined_features: Vec::new(),
        members: Vec::new(),
        modifiers: Vec::new(),
        docs: Vec::new(),
        span: span(1, 1),
    }
}

fn bundle(defaults: SemanticDefaultsSeed) -> MappingBundle {
    MappingBundle::from_seeds(kerml_construct_seed(), kerml_emission_seed(), None, defaults).unwrap()
}

fn defaults() -> SemanticDefaultsSeed {
    let mut sd = SemanticDefaultsSeed::default();
    sd.usage_family_defaults.insert(
        "PartUsage".to_string(),
        UsageFamilyDefaultSeed {
            type_ref: "Parts::Part".to_string(),
            subsetted_feature_refs: strings(&["Parts::parts"]),
            owner_subsetted_feature_refs: {
                let mut m = StrMap::new();
                m.insert("PartDefinition".to_string(), strings(&["Parts::Part::subparts"]));
                m
            },
            is_variable: true,
        },
    );
    sd.usage_type_defaults.insert(
        "AttributeUsage".to_string(),
        UsageTypeDefaultSeed {
            type_ref: Some("$declared_name".to_string()),
            owner_type_refs: {
                let mut m = StrMap::new();
                m.insert("PortDefinition".to_string(), "$owner_qualified_name".to_string());
                m
            },
        },
    );
    sd.usage_subset_defaults.insert(
        "ItemUsage".to_string(),
        UsageSubsetDefaultSeed {
            subsetted_feature_refs: strings(&["Items::items"]),
            suppress_default_for_modifiers: strings(&["ref"]),
            append_semantic_specializations_when_no_defaults: false,
            owner_subsetted_feature_refs: {
                let mut m = StrMap::new();
                m.insert("PartDefinition".to_string(), strings(&["Parts::Part::ownedItems"]));
                m
            },
            modifier_owner_subsetted_feature_refs: {
                let mut owners = StrMap::new();
                owners.insert("PartDefinition".to_string(), strings(&["Items::Item::inItems"]));
                let mut m = StrMap::new();
                m.insert("in".to_string(), owners);
                m
            },
            specialized_feature_subset: Some(SpecializedFeatureSubsetDefaultSeed {
                require_feature_ref: true,
                require_multiplicity: false,
                include_specialized_features: true,
                require_no_explicit_type_for_append_refs: true,
                append_refs: strings(&["Items::subitems"]),
                owner_append_refs: StrMap::new(),
            }),
        },
    );
    sd.usage_specialization_policies.insert(
        "ActionUsage".to_string(),
        UsageSpecializationPolicySeed {
            specialization_refs_policy: Some("merge_feature_refs_into_semantic_specializations".to_string()),
            materialized_refs_policy: Some(
                "prepend_feature_for_specialized_actions_without_multiplicity".to_string(),
            ),
        },
    );
    sd.reference_usage_semantics.constructs = strings(&["ReferenceUsage"]);
    sd.reference_usage_semantics.modifier_rules = vec![ReferenceModifierSemanticsSeed {
        modifier: "subject".to_string(),
        synthetic_declared_name: true,
        default_type_ref: Some("Base::Anything".to_string()),
        semantic_specializations: None,
        subsetted_feature_refs: strings(&["$owner_qualified_name"]),
        specialized_feature_refs: Vec::new(),
        redefined_feature_refs: Vec::new(),
        direction: Some("in".to_string()),
        direction_from_modifier: None,
    }];
    sd.reference_usage_semantics.typed_data_value.subsetted_feature_refs = strings(&["Base::dataValues"]);
    sd.reference_usage_semantics.typed_object.subsetted_feature_refs = strings(&["Objects::objects"]);
    sd.reference_usage_semantics.typed_object.direction_from_modifiers = strings(&["in", "out"]);
    sd.usage_context.direction_modifiers = strings(&["in", "out", "inout"]);
    sd.usage_context.non_variable_owner_constructs = strings(&["Package"]);
    sd.definition_context.abstract_constructs = strings(&["EnumerationDefinition"]);
    sd
}

#[test]
fn family_and_type_defaults() {
    let b = bundle(defaults());
    let f = b.usage_family_default("PartUsage", "PartDefinition").unwrap();
    assert_eq!(f.type_ref, "Parts::Part");
    assert_eq!(f.subsetted_feature_refs, strings(&["Parts::Part::subparts"]));
    let f = b.usage_family_default("PartUsage", "Package").unwrap();
    assert_eq!(f.subsetted_feature_refs, strings(&["Parts::parts"]));
    assert!(b.usage_family_default("PortUsage", "Package").is_none());

    let attr = usage("AttributeUsage", "PartDefinition");
    assert_eq!(b.usage_type_default(&attr), Some("thing".to_string()));
    let port_attr = usage("AttributeUsage", "PortDefinition");
    assert_eq!(b.usage_type_default(&port_attr), Some("Pkg.Owner".to_string()));
    assert_eq!(b.usage_type_default(&usage("PartUsage", "Package")), None);
}

#[test]
fn subset_defaults_follow_modifiers_and_owners() {
    let b = bundle(defaults());
    let mut item = usage("ItemUsage", "Package");
    assert_eq!(b.usage_subset_default(&item), strings(&["Items::items"]));
    item.owner_construct = "PartDefinition".to_string();
    assert_eq!(b.usage_subset_default(&item), strings(&["Parts::Part::ownedItems"]));
    item.modifiers = strings(&["in"]);
    assert_eq!(b.usage_subset_default(&item), strings(&["Items::Item::inItems"]));
    item.modifiers = strings(&["in", "ref"]);
    assert!(b.usage_subset_default(&item).is_empty());
}

#[test]
fn specialized_feature_subset_defaults() {
    let b = bundle(defaults());
    let mut item = usage("ItemUsage", "Package");
    assert!(b.specialized_feature_subset_default(&item).is_none());
    item.specialized_features = strings(&["Other.thing"]);
    assert!(b.specialized_feature_subset_default(&item).is_none());
    item.specialized_features = strings(&["feature.Pkg.x"]);
    assert_eq!(
        b.specialized_feature_subset_default(&item),
        Some(strings(&["feature.Pkg.x", "Items::subitems"]))
    );
    item.has_explicit_type = true;
    assert_eq!(b.specialized_feature_subset_default(&item), Some(strings(&["feature.Pkg.x"])));
}

#[test]
fn reference_semantics_come_from_modifiers_then_types() {
    let b = bundle(defaults());
    let mut subject = usage("ReferenceUsage", "RequirementDefinition");
    subject.modifiers = strings(&["subject"]);
    let s = b.reference_usage_semantics(&subject).unwrap();
    assert_eq!(s.type_refs, strings(&["Base::Anything"]));
    assert!(s.semantic_specializations.is_empty());
    assert_eq!(s.subsetted_feature_refs, strings(&["Pkg.Owner"]));
    assert_eq!(s.direction.as_deref(), Some("in"));
    assert!(b.reference_usage_has_synthetic_declared_name(&subject));

    let mut typed = usage("ReferenceUsage", "PartDefinition");
    typed.type_ref = Some("ScalarValues::Real".to_string());
    let s = b.reference_usage_semantics(&typed).unwrap();
    assert_eq!(s.subsetted_feature_refs, strings(&["Base::dataValues"]));
    assert_eq!(s.semantic_specializations, strings(&["ScalarValues::Real"]));

    typed.type_ref = Some("Vehicles::Car".to_string());
    typed.modifiers = strings(&["out"]);
    let s = b.reference_usage_semantics(&typed).unwrap();
    assert_eq!(s.subsetted_feature_refs, strings(&["Objects::objects"]));
    assert_eq!(s.direction.as_deref(), Some("out"));

    assert!(b.reference_usage_semantics(&usage("ReferenceUsage", "PartDefinition")).is_none());
    assert!(b.reference_usage_semantics(&usage("PartUsage", "PartDefinition")).is_none());
}

#[test]
fn context_predicates_and_policies() {
    let b = bundle(defaults());
    assert!(!b.usage_is_variable(&usage("PartUsage", "Package")));
    assert!(b.usage_is_variable(&usage("PartUsage", "PartDefinition")));
    assert!(b.usage_counts_as_owned_member(&usage("PartUsage", "Package")));
    assert!(b.usage_has_type_context(&usage("PartUsage", "Package")));
    let definition = ResolvedDefinition {
        construct: "EnumerationDefinition".to_string(),
        qualified_name: "Pkg.Colors".to_string(),
        declared_name: "Colors".to_string(),
        is_abstract: false,
        specializes: Vec::new(),
        members: Vec::new(),
        docs: Vec::new(),
        span: span(1, 1),
    };
    assert!(b.definition_is_abstract(&definition));
    let mut port = usage("PortUsage", "PartDefinition");
    port.modifiers = strings(&["out", "in"]);
    assert_eq!(b.usage_direction_from_modifiers(&port), Some("in"));
    let action = usage("ActionUsage", "PartDefinition");
    assert_eq!(
        b.usage_specialization_refs_policy(&action),
        Some("merge_feature_refs_into_semantic_specializations")
    );
    assert_eq!(b.usage_specialization_refs_policy(&port), None);
    assert!(!b.usage_records_previous_state(&action));
    assert!(b.usage_connection_end_specialization_policy("ConnectionUsage").is_none());
}

#[test]
fn usage_specializations_and_refs() {
    let b = bundle(defaults());
    let mut part = usage("PartUsage", "PartDefinition");
    part.type_ref = Some("Vehicles::Car".to_string());
    assert_eq!(semantic_specializations_for_usage(&part, &b, None), strings(&["Vehicles::Car"]));
    part.subsetted_features = strings(&["feature.Pkg.x"]);
    assert!(semantic_specializations_for_usage(&part, &b, None).is_empty());
    part.has_explicit_type = true;
    assert_eq!(semantic_specializations_for_usage(&part, &b, None), strings(&["Vehicles::Car"]));
    let mut literal = usage("EnumerationUsage", "EnumerationDefinition");
    literal.has_explicit_type = true;
    assert_eq!(semantic_specializations_for_usage(&literal, &b, None), strings(&["Pkg.Owner"]));
    let sem = ReferenceUsageSemantics {
        semantic_specializations: strings(&["X"]),
        ..ReferenceUsageSemantics::default()
    };
    assert_eq!(semantic_specializations_for_usage(&part, &b, Some(&sem)), strings(&["X"]));

    let action = usage("ActionUsage", "PartDefinition");
    assert_eq!(
        usage_specialization_refs(&action, &b, strings(&["A"]), &strings(&["B"]), &strings(&["A", "C"]), &[]),
        strings(&["A", "B", "C"])
    );
    assert_eq!(
        materialized_usage_specialization_refs(&action, &b, &strings(&["A", "B", "C"]), &strings(&["B"])),
        strings(&["kerml.Feature", "A", "C"])
    );
    assert_eq!(
        materialized_usage_specialization_refs(&part, &b, &strings(&["A", "B"]), &strings(&["B"])),
        strings(&["A", "B"])
    );
    let mut counted = usage("ActionUsage", "PartDefinition");
    counted.multiplicity = Some(MultiplicityRange {
        raw: "[1]".to_string(),
        lower: "1".to_string(),
        upper: "1".to_string(),
    });
    assert_eq!(
        materialized_usage_specialization_refs(&counted, &b, &strings(&["A", "B"]), &strings(&["B"])),
        strings(&["A", "B"])
    );
}

#[test]
fn subsetted_feature_refs_pick_the_first_applicable_source() {
    let b = bundle(defaults());
    let mut item = usage("ItemUsage", "PartDefinition");
    assert_eq!(usage_subsetted_feature_refs(&item, &b, None), strings(&["Parts::Part::ownedItems"]));
    item.subsetted_features = strings(&["x", "x", "y"]);
    assert_eq!(usage_subsetted_feature_refs(&item, &b, None), strings(&["x", "y"]));
    item.subsetted_features = Vec::new();
    item.redefined_features = strings(&["z"]);
    assert!(usage_subsetted_feature_refs(&item, &b, None).is_empty());
    let part = usage("PartUsage", "PartDefinition");
    assert!(usage_subsetted_feature_refs(&part, &b, None).is_empty());
}

#[test]
fn usage_helpers() {
    let b = bundle(defaults());
    let mut end = usage("PartUsage", "ConnectionDefinition");
    assert!(!usage_is_end(&end));
    end.modifiers = strings(&["end-source"]);
    assert!(usage_is_end(&end));
    let mut with_members = usage("PartUsage", "PartDefinition");
    with_members.span = span(3, 7);
    assert_eq!(usage_source_span(&with_members).end_line, 7);
    with_members.members.push(usage("PartUsage", "PartUsage"));
    assert_eq!(usage_source_span(&with_members).end_line, 6);
    let attr = usage("AttributeUsage", "PartDefinition");
    assert_eq!(usage_type_ref(&attr, &b, None), Some("thing".to_string()));
    let mut port = usage("PortUsage", "PartDefinition");
    port.modifiers = strings(&["inout"]);
    assert_eq!(usage_direction(&port, &b, None), Some("inout"));
    let mut implicit = usage("PartUsage", "PartDefinition");
    implicit.is_implicit_name = true;
    assert_eq!(usage_display_name(&implicit, &b), Some("subparts".to_string()));
    implicit.declared_name = String::new();
    implicit.construct = "ItemUsage".to_string();
    assert_eq!(usage_display_name(&implicit, &b), None);
    let definition = ResolvedDefinition {
        construct: "Classifier".to_string(),
        qualified_name: "Pkg.A".to_string(),
        declared_name: "A".to_string(),
        is_abstract: false,
        specializes: strings(&["Pkg.B"]),
        members: Vec::new(),
        docs: Vec::new(),
        span: span(1, 1),
    };
    assert_eq!(semantic_specializations_for_definition(&definition, &b), strings(&["Pkg.B"]));
    let mut typed = usage("PartUsage", "PartDefinition");
    typed.type_ref = Some("A".to_string());
    typed.additional_type_refs = strings(&["B", "A"]);
    assert_eq!(usage_all_type_refs(&typed), strings(&["A", "B"]));
}

#[test]
fn modifier_semantics_and_directions() {
    let rule = ReferenceModifierSemanticsSeed {
        modifier: "stakeholder".to_string(),
        synthetic_declared_name: false,
        default_type_ref: Some("$declared_name".to_string()),
        semantic_specializations: Some(strings(&["Req::stakeholders", "$owner_qualified_name"])),
        subsetted_feature_refs: strings(&["a"]),
        specialized_feature_refs: strings(&["b"]),
        redefined_feature_refs: strings(&["c"]),
        direction: None,
        direction_from_modifier: Some("in".to_string()),
    };
    let mut u = usage("ReferenceUsage", "RequirementDefinition");
    u.modifiers = strings(&["in"]);
    let mut s = ReferenceUsageSemantics::default();
    apply_reference_modifier_semantics(&rule, &u, &mut s);
    assert_eq!(s.type_refs, strings(&["thing"]));
    assert_eq!(s.semantic_specializations, strings(&["Req::stakeholders", "Pkg.Owner"]));
    assert_eq!(s.subsetted_feature_refs, strings(&["a"]));
    assert_eq!(s.direction.as_deref(), Some("in"));
    assert_eq!(reference_direction_from_modifiers(&u, &strings(&["out", "in"])), Some("in".to_string()));
    assert_eq!(resolve_semantic_default_value("$owner_qualified_name", &u), "Pkg.Owner");
    assert_eq!(resolve_semantic_default_value("Base::x", &u), "Base::x");
}

#[test]
fn property_defaults_and_actions() {
    let mut u = usage("TransitionUsage", "StateDefinition");
    u.modifiers = strings(&["trigger=Go", "transition_target=Idle", "accept"]);
    u.metadata_properties.insert("body".to_string(), "hello".to_string());
    assert_eq!(
        resolve_usage_property_default_value("$sibling_state_id_transition_target", &u, "owner"),
        Some("state.Pkg.Owner.Idle".to_string())
    );
    assert_eq!(
        resolve_usage_property_default_value("on $modifier_value_trigger: $metadata_body", &u, "o"),
        Some("on Go: hello".to_string())
    );
    assert_eq!(resolve_usage_property_default_value("$reference_target", &u, "o"), None);
    assert_eq!(resolve_usage_property_default_value("$owner_id.x", &u, "o"), Some("o.x".to_string()));

    let default = UsagePropertyDefaultSeed {
        owner_construct: Some("StateDefinition".to_string()),
        kir_kind: None,
        present_modifiers: strings(&["accept"]),
        absent_modifiers: strings(&["send"]),
        property_refs: StrMap::new(),
        property_values: StrMap::new(),
    };
    assert!(usage_property_default_applies(&default, &u));
    let mut other = usage("TransitionUsage", "Package");
    other.modifiers = strings(&["accept"]);
    assert!(!usage_property_default_applies(&default, &other));
    let action = UsageActionSeed {
        action: "attach_metadata_application".to_string(),
        requires_metadata_properties: true,
        requires_previous_state: false,
        target: Some("$reference_target_or_owner".to_string()),
    };
    assert!(usage_action_applies(&action, &u));
    assert!(!usage_action_applies(&action, &other));
    assert_eq!(resolve_usage_action_target("$reference_target_or_owner", &u, "own"), Some("own".to_string()));
    assert_eq!(resolve_usage_action_target("$reference_target", &u, "own"), None);
    assert_eq!(resolve_usage_action_target("Lib::x", &u, "own"), Some("Lib::x".to_string()));

    let mut sd = defaults();
    sd.usage_property_defaults.insert("TransitionUsage".to_string(), vec![default.clone()]);
    sd.usage_actions.insert("TransitionUsage".to_string(), vec![action.clone()]);
    let b = bundle(sd);
    assert_eq!(b.usage_property_defaults(&u).len(), 1);
    assert_eq!(b.usage_property_defaults(&other).len(), 0);
    assert_eq!(b.usage_actions(&u).len(), 1);
}

#[test]
fn elaboration_rules_gate_connection_end_directions() {
    let rule = LoweringRule {
        construct: "ConnectionDefinition".to_string(),
        metaclass: "KerML::Classifier".to_string(),
        status: None,
        ast: LoweringAstPattern { node: "GenericDefinitionDecl".to_string(), keyword: Some("connection".to_string()) },
        collect: LoweringCollectRule {
            element: "definition".to_string(),
            name: "$ast.name".to_string(),
            owner: "$scope.package".to_string(),
            fields: StrMap::new(),
        },
        elaborate: vec![LoweringElaborationRule {
            id: "connection-end-direction".to_string(),
            when: None,
            set: StrMap::new(),
            note: None,
        }],
        emit: LoweringEmitRule { id_template: "type.{qualified_name}".to_string(), properties: StrMap::new() },
        pilot_sources: LoweringPilotSources::default(),
    };
    let b = MappingBundle::from_seeds(
        kerml_construct_seed(),
        kerml_emission_seed(),
        Some(LoweringRuleSeed { schema_version: 1, source: StrMap::new(), rules: vec![rule] }),
        SemanticDefaultsSeed::default(),
    )
    .unwrap();
    assert!(has_elaboration_rule(&b, "ConnectionDefinition", "connection-end-direction"));
    assert!(!has_elaboration_rule(&b, "PartDefinition", "connection-end-direction"));
    assert!(should_annotate_connection_end_direction(&b, "ConnectionDefinition"));
    assert!(!should_annotate_connection_end_direction(&b, "PartDefinition"));
}
