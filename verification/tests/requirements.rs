use mercurio_sysml::requirements::{
    RequirementsError, is_requirement_trace_relation, push_unique, to_ascii_lowercase,
};

#[test]
fn trace_relations_are_recognised_in_any_case() {
    assert!(is_requirement_trace_relation("satisfy"));
    assert!(is_requirement_trace_relation("satisfiedBy"));
    assert!(is_requirement_trace_relation("SatisfyRequirementUsage"));
    assert!(is_requirement_trace_relation("verifiedBy"));
    assert!(is_requirement_trace_relation("REFINE"));
    assert!(!is_requirement_trace_relation("derives"));
    assert!(!is_requirement_trace_relation(""));
}

#[test]
fn lowercase_only_touches_ascii_capitals() {
    assert_eq!(to_ascii_lowercase("AbC-É"), "abc-É");
}

#[test]
fn columns_carry_key_and_label() {
    let c = mercurio_sysml::requirements::column("satisfied_by", "Satisfied By");
    assert_eq!(c.key, "satisfied_by");
    assert_eq!(c.label, "Satisfied By");
}

#[test]
fn push_unique_skips_existing_values() {
    let mut values = vec!["a".to_string()];
    push_unique(&mut values, "b".to_string());
    push_unique(&mut values, "a".to_string());
    assert_eq!(values, vec!["a".to_string(), "b".to_string()]);
}

#[test]
fn requirements_error_displays_its_message() {
    let error = RequirementsError::new("unknown requirement `R1`");
    assert_eq!(error.to_display_string(), "unknown requirement `R1`");
    assert_eq!(error, RequirementsError::new("unknown requirement `R1`"));
}
