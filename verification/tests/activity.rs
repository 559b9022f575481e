use mercurio_sysml::activity::{
    ActivityElement, ActivityFlow, BehaviorBinding, CapabilityRunStatus, activity_execution_nodes,
    activity_execution_state, activity_execution_summary, activity_flows, activity_owner_id,
    aggregate_capability_status, capability_run_status_label, element_label, execute_activity_binding,
    is_activity_execution_node, is_activity_flow_element, schedule_activity, string_property_any,
};
use mercurio_sysml::strmap::{StrMap, StrSet};

fn element(id: &str, kind: &str, properties: &[(&str, &str)]) -> ActivityElement {
    let mut map = StrMap::new();
    for (k, v) in properties {
        map.insert(k.to_string(), v.to_string());
    }
    ActivityElement { element_id: id.to_string(), kind: kind.to_string(), properties: map }
}

fn action(id: &str, owner: &str) -> ActivityElement {
    element(id, "ActionUsage", &[("owner", owner), ("declared_name", id.rsplit('.').next().unwrap())])
}

fn succession(id: &str, owner: &str, source: &str, target: &str) -> ActivityElement {
    element(id, "SuccessionAsUsage", &[("owner", owner), ("source", source), ("target", target)])
}

fn set(ids: &[&str]) -> StrSet {
    let mut s = StrSet::new();
    for id in ids {
        s.insert(id.to_string(), ());
    }
    s
}

fn flow(id: &str, source: &str, target: &str) -> ActivityFlow {
    ActivityFlow { id: id.to_string(), source: source.to_string(), target: target.to_string() }
}

#[test]
fn statuses_aggregate_worst_first() {
    assert_eq!(aggregate_capability_status(&[]), CapabilityRunStatus::Passed);
    assert_eq!(aggregate_capability_status(&[CapabilityRunStatus::Passed, CapabilityRunStatus::Passed]), CapabilityRunStatus::Passed);
    assert_eq!(aggregate_capability_status(&[CapabilityRunStatus::Passed, CapabilityRunStatus::Partial]), CapabilityRunStatus::Partial);
    assert_eq!(aggregate_capability_status(&[CapabilityRunStatus::Failed, CapabilityRunStatus::Error, CapabilityRunStatus::Passed]), CapabilityRunStatus::Error);
    assert_eq!(aggregate_capability_status(&[CapabilityRunStatus::Failed, CapabilityRunStatus::Partial]), CapabilityRunStatus::Failed);
    assert_eq!(aggregate_capability_status(&[CapabilityRunStatus::Inconclusive, CapabilityRunStatus::Passed]), CapabilityRunStatus::Inconclusive);
    assert_eq!(aggregate_capability_status(&[CapabilityRunStatus::Passed, CapabilityRunStatus::NotApplicable]), CapabilityRunStatus::Partial);
    assert_eq!(aggregate_capability_status(&[CapabilityRunStatus::NotApplicable]), CapabilityRunStatus::NotApplicable);
}

#[test]
fn statuses_have_labels_and_states() {
    assert_eq!(capability_run_status_label(CapabilityRunStatus::Passed), "passed");
    assert_eq!(capability_run_status_label(CapabilityRunStatus::NotApplicable), "not_applicable");
    assert_eq!(capability_run_status_label(CapabilityRunStatus::Error), "error");
    assert_eq!(activity_execution_state(CapabilityRunStatus::Passed), "completed");
    assert_eq!(activity_execution_state(CapabilityRunStatus::Error), "failed");
    assert_eq!(activity_execution_state(CapabilityRunStatus::Failed), "failed");
    assert_eq!(activity_execution_state(CapabilityRunStatus::Partial), "partial");
}

#[test]
fn string_properties_are_trimmed_and_blank_ones_skipped() {
    let e = element("a", "ActionUsage", &[("source", "   "), ("source_id", "  x.y \n"), ("sourceId", "z")]);
    assert_eq!(string_property_any(&e, &["source", "source_id", "sourceId"]), Some("x.y".to_string()));
    assert_eq!(string_property_any(&e, &["missing"]), None);
    assert_eq!(string_property_any(&e, &["source"]), None);
    assert_eq!(element_label(&e), "a");
    let named = element("b", "ActionUsage", &[("name", "Start")]);
    assert_eq!(element_label(&named), "Start");
    assert_eq!(activity_owner_id(&element("c", "x", &[("owningNamespace", "P")])), Some("P".to_string()));
}

#[test]
fn kinds_classify_nodes_and_flows() {
    assert!(is_activity_execution_node(&element("a", "ActionUsage", &[])));
    assert!(is_activity_execution_node(&element("f", "sysml::ForkNode", &[])));
    assert!(!is_activity_execution_node(&element("p", "PartUsage", &[])));
    assert!(is_activity_flow_element(&element("s", "Succession", &[])));
    assert!(!is_activity_flow_element(&element("f", "FlowUsage", &[("source", "a")])));
    assert!(is_activity_flow_element(&element("f", "FlowUsage", &[("source", "a"), ("target", "b")])));
    // A flow that names an action kind is still a flow, not a node.
    assert!(!is_activity_execution_node(&element("s", "ActionSuccession", &[])));
}

#[test]
fn execution_nodes_are_found_by_owner_or_fall_back_to_the_activity() {
    let elements = vec![action("act.b", "act"), action("act.a", "act"), action("other.c", "other")];
    let nodes = activity_execution_nodes(&elements, "act");
    assert_eq!(nodes.len(), 2);
    assert_eq!(nodes.get("act.a"), Some(&1));
    assert_eq!(nodes.get("act.b"), Some(&0));
    let lone = vec![element("solo", "ActionUsage", &[])];
    let nodes = activity_execution_nodes(&lone, "solo");
    assert_eq!(nodes.get("solo"), Some(&0));
    assert_eq!(activity_execution_nodes(&lone, "missing").len(), 0);
}

#[test]
fn flows_resolve_their_ends_and_come_sorted() {
    let elements = vec![
        succession("act.s2", "act", "b", "c"),
        succession("act.s1", "act", "act::a", "act.b"),
        succession("act.s3", "act", "a", "nowhere"),
    ];
    let ids = set(&["act.a", "act.b", "act.c"]);
    let mut diagnostics = Vec::new();
    let flows = activity_flows(&elements, "act", &ids, &mut diagnostics);
    let got: Vec<(String, String, String)> =
        flows.iter().map(|f| (f.id.clone(), f.source.clone(), f.target.clone())).collect();
    assert_eq!(
        got,
        vec![
            ("act.s1".to_string(), "act.a".to_string(), "act.b".to_string()),
            ("act.s2".to_string(), "act.b".to_string(), "act.c".to_string()),
        ]
    );
    assert_eq!(diagnostics.len(), 1);
    assert_eq!(diagnostics[0].code, "analysis.dynamic.activity_execution.unresolved_flow_target");
    assert_eq!(diagnostics[0].message, "activity flow `act.s3` references unknown target `nowhere`");
    assert_eq!(diagnostics[0].subject, "act");
}

#[test]
fn schedule_runs_nodes_after_their_predecessors() {
    let ids = set(&["a", "b", "c", "d"]);
    let flows = vec![flow("f1", "a", "b"), flow("f2", "a", "c"), flow("f3", "b", "d"), flow("f4", "c", "d")];
    let (steps, blocked) = schedule_activity(&ids, &flows);
    assert_eq!(
        steps,
        vec![vec!["a".to_string()], vec!["b".to_string(), "c".to_string()], vec!["d".to_string()]]
    );
    assert!(blocked.is_empty());
}

#[test]
fn schedule_reports_cycles_as_blocked() {
    let ids = set(&["a", "b", "c"]);
    let flows = vec![flow("f1", "a", "b"), flow("f2", "b", "a")];
    let (steps, blocked) = schedule_activity(&ids, &flows);
    assert_eq!(steps, vec![vec!["c".to_string()]]);
    assert_eq!(blocked, vec!["a".to_string(), "b".to_string()]);
}

#[test]
fn sequential_activity_runs_to_completion() {
    let elements = vec![
        action("act.start", "act"),
        action("act.work", "act"),
        action("act.done", "act"),
        succession("act.s1", "act", "act.start", "act.work"),
        succession("act.s2", "act", "work", "done"),
    ];
    let r = execute_activity_binding(&elements, "act");
    assert_eq!(r.status, CapabilityRunStatus::Passed);
    assert_eq!(r.execution_state, "completed");
    assert_eq!(r.node_count, 3);
    assert_eq!(r.edge_count, 2);
    let steps: Vec<Vec<String>> =
        r.steps.iter().map(|s| s.iter().map(|n| n.element_id.clone()).collect()).collect();
    assert_eq!(
        steps,
        vec![vec!["act.start".to_string()], vec!["act.work".to_string()], vec!["act.done".to_string()]]
    );
    assert_eq!(r.steps[0][0].label, "start");
    assert_eq!(r.steps[0][0].kind, "ActionUsage");
    assert!(r.blocked_nodes.is_empty());
    assert!(r.diagnostics.is_empty());
    assert!(r.limitations.is_empty());
}

#[test]
fn cyclic_activity_is_partial_with_blocked_nodes() {
    let elements = vec![
        action("act.a", "act"),
        action("act.b", "act"),
        succession("act.s1", "act", "act.a", "act.b"),
        succession("act.s2", "act", "act.b", "act.a"),
    ];
    let r = execute_activity_binding(&elements, "act");
    assert_eq!(r.status, CapabilityRunStatus::Partial);
    assert_eq!(r.execution_state, "partial");
    assert!(r.steps.is_empty());
    let blocked: Vec<String> = r.blocked_nodes.iter().map(|n| n.element_id.clone()).collect();
    assert_eq!(blocked, vec!["act.a".to_string(), "act.b".to_string()]);
    assert_eq!(r.diagnostics.len(), 1);
    assert_eq!(r.diagnostics[0].code, "analysis.dynamic.activity_execution.blocked_graph");
    assert_eq!(
        r.diagnostics[0].message,
        "activity `act` could not complete; remaining nodes may be cyclic or waiting on unsupported control semantics"
    );
}

#[test]
fn activity_without_nodes_reports_no_executable_nodes() {
    let elements = vec![element("act", "PartUsage", &[])];
    let r = execute_activity_binding(&elements, "act");
    assert_eq!(r.status, CapabilityRunStatus::Partial);
    assert_eq!(r.execution_state, "no_executable_nodes");
    assert_eq!(r.node_count, 0);
    assert_eq!(r.diagnostics.len(), 1);
    assert_eq!(r.diagnostics[0].code, "analysis.dynamic.activity_execution.no_nodes");
    assert_eq!(r.diagnostics[0].message, "activity `act` has no executable action or control nodes");
}

#[test]
fn unresolved_flow_makes_the_run_partial() {
    let elements = vec![action("act.a", "act"), succession("act.s1", "act", "act.a", "ghost")];
    let r = execute_activity_binding(&elements, "act");
    assert_eq!(r.status, CapabilityRunStatus::Partial);
    assert_eq!(r.steps.len(), 1);
    assert_eq!(r.edge_count, 0);
    assert_eq!(r.diagnostics[0].code, "analysis.dynamic.activity_execution.unresolved_flow_target");
}

#[test]
fn summary_runs_only_activity_bindings() {
    let elements = vec![action("act.a", "act")];
    let bindings = vec![
        BehaviorBinding { subject_id: "car".to_string(), behavior_id: "sm".to_string(), is_activity: false },
        BehaviorBinding { subject_id: "car".to_string(), behavior_id: "act".to_string(), is_activity: true },
    ];
    let s = activity_execution_summary(&elements, "case 1", "run#7", &bindings);
    assert_eq!(s.executions.len(), 1);
    assert_eq!(s.status, CapabilityRunStatus::Passed);
    assert_eq!(s.execution_state, "completed");
    assert_eq!(s.artifact_id, "artifact.run_7.activity_execution.case_1");
    assert_eq!(s.run_evidence_id, "evidence.run_7.activity_execution.case_1");
    assert_eq!(s.run_label, "Activity execution analysis case case 1");
    assert_eq!(
        s.binding_evidence,
        vec![("evidence.run_7.activity_binding.0".to_string(), "Activity binding car -> act".to_string())]
    );
    assert!(s.diagnostics.is_empty());
    assert_eq!(s.limitations.len(), 1);
    assert!(s.limitations[0].starts_with("Phase 5 activity execution"));
}
