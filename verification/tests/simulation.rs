use mercurio_sysml::simulation::{
    canonical_kind, dedup_strings, label_for_simulation_feature, resolve_activity_reference,
    sanitize_identifier,
};
use mercurio_sysml::strmap::StrSet;

fn set(ids: &[&str]) -> StrSet {
    let mut s = StrSet::new();
    for id in ids {
        s.insert(id.to_string(), ());
    }
    s
}

#[test]
fn feature_labels_are_the_last_segment() {
    assert_eq!(label_for_simulation_feature("Vehicle.speed"), "speed");
    assert_eq!(label_for_simulation_feature("Lib::Vehicle::mass"), "mass");
    assert_eq!(label_for_simulation_feature("plain"), "plain");
    assert_eq!(label_for_simulation_feature("trailing."), "trailing.");
    assert_eq!(label_for_simulation_feature(""), "");
}

#[test]
fn activity_references_resolve_to_nodes() {
    let nodes = set(&["Plant.Run.start", "Plant.Run.stop", "Other.go"]);
    assert_eq!(resolve_activity_reference("Other.go", &nodes), Some("Other.go".to_string()));
    assert_eq!(resolve_activity_reference("Other::go", &nodes), Some("Other.go".to_string()));
    assert_eq!(resolve_activity_reference("Run::stop", &nodes), Some("Plant.Run.stop".to_string()));
    assert_eq!(resolve_activity_reference("missing", &nodes), None);
    assert_eq!(resolve_activity_reference("x.start", &nodes), Some("Plant.Run.start".to_string()));
    assert_eq!(resolve_activity_reference("x.y", &nodes), None);
    assert_eq!(resolve_activity_reference("start.y", &nodes), Some("Plant.Run.start".to_string()));
}

#[test]
fn kinds_are_compared_without_separators_or_case() {
    assert_eq!(canonical_kind("SysML::Action_Usage"), "sysmlactionusage");
    assert_eq!(canonical_kind("state machine.Def"), "statemachinedef");
}

#[test]
fn dedup_keeps_first_occurrences() {
    let v = vec!["b".to_string(), "a".to_string(), "b".to_string()];
    assert_eq!(dedup_strings(v), vec!["b".to_string(), "a".to_string()]);
}

#[test]
fn identifiers_are_sanitized() {
    assert_eq!(sanitize_identifier("Plant Run/1"), "Plant_Run_1");
    assert_eq!(sanitize_identifier("a.b-c_d"), "a.b-c_d");
    assert_eq!(sanitize_identifier(""), "unnamed");
    assert_eq!(sanitize_identifier("é"), "_");
}
