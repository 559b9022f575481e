use mercurio_sysml::simulation_core::model::{
    SimulationModel, SimulationProfileError, SimulationProfileFinding, SimulationState,
    SimulationStateMachine, SimulationTransition, SimulationTrigger, SimulationTriggerKind,
};
use mercurio_sysml::simulation_core::validate::{finding, validate_simulation_model};

fn state(id: &str, initial: bool) -> SimulationState {
    SimulationState {
        id: id.to_string(),
        label: id.to_string(),
        parent_state_id: None,
        is_initial: initial,
        is_final: false,
        is_orthogonal: false,
        is_history: false,
        entry_behavior: None,
        exit_behavior: None,
        do_behavior: None,
    }
}

fn child(id: &str, parent: &str, initial: bool) -> SimulationState {
    let mut s = state(id, initial);
    s.parent_state_id = Some(parent.to_string());
    s
}

fn transition(id: &str, source: &str, target: &str, trigger: &str) -> SimulationTransition {
    SimulationTransition {
        id: id.to_string(),
        source: source.to_string(),
        target: target.to_string(),
        trigger: SimulationTrigger {
            kind: SimulationTriggerKind::Event,
            value: Some(trigger.to_string()),
        },
        guard: None,
        effects: Vec::new(),
    }
}

fn machine(states: Vec<SimulationState>, transitions: Vec<SimulationTransition>) -> SimulationModel {
    SimulationModel {
        id: "demo".to_string(),
        machines: vec![SimulationStateMachine {
            id: "Machine".to_string(),
            label: "Machine".to_string(),
            states,
            transitions,
        }],
    }
}

fn codes(error: &SimulationProfileError) -> Vec<String> {
    error.findings.iter().map(|f| f.code.clone()).collect()
}

#[test]
fn validator_rejects_ambiguous_transitions() {
    let model = SimulationModel {
        id: "demo".to_string(),
        machines: vec![SimulationStateMachine {
            id: "Machine".to_string(),
            label: "Machine".to_string(),
            states: vec![state("s1", true), state("s2", false), state("s3", false)],
            transitions: vec![
                transition("t1", "s1", "s2", "go"),
                transition("t2", "s1", "s3", "go"),
            ],
        }],
    };

    let error = validate_simulation_model(&model).unwrap_err();
    assert!(
        error
            .findings
            .iter()
            .any(|finding| finding.code == "transition.ambiguous_trigger")
    );
}

#[test]
fn validator_accepts_minimal_machine() {
    let model = SimulationModel {
        id: "demo".to_string(),
        machines: vec![SimulationStateMachine {
            id: "Machine".to_string(),
            label: "Machine".to_string(),
            states: vec![state("s1", true), state("s2", false)],
            transitions: vec![transition("t1", "s1", "s2", "go")],
        }],
    };

    validate_simulation_model(&model).unwrap();
}

#[test]
fn ambiguous_trigger_message_names_source_count_and_trigger() {
    let model = machine(
        vec![state("s1", true), state("s2", false), state("s3", false)],
        vec![
            transition("t1", "s1", "s2", "go"),
            transition("t2", "s1", "s3", "go"),
            transition("t3", "s1", "s3", "go"),
        ],
    );
    let error = validate_simulation_model(&model).unwrap_err();
    assert_eq!(
        error.findings,
        vec![SimulationProfileFinding {
            code: "transition.ambiguous_trigger".to_string(),
            message: "Source state `s1` has 3 transitions for trigger `go`.".to_string(),
            machine_id: Some("Machine".to_string()),
            element_id: Some("s1".to_string()),
        }]
    );
}

#[test]
fn ambiguous_triggers_are_reported_in_key_order() {
    let mut completion_a = transition("c1", "s2", "s1", "");
    completion_a.trigger = SimulationTrigger { kind: SimulationTriggerKind::Completion, value: None };
    let mut completion_b = transition("c2", "s2", "s1", "");
    completion_b.trigger = SimulationTrigger { kind: SimulationTriggerKind::Completion, value: None };
    let model = machine(
        vec![state("s1", true), state("s2", false)],
        vec![
            completion_a,
            transition("t1", "s2", "s1", "b"),
            transition("t2", "s1", "s2", "z"),
            completion_b,
            transition("t3", "s2", "s1", "b"),
            transition("t4", "s1", "s2", "z"),
        ],
    );
    let error = validate_simulation_model(&model).unwrap_err();
    let messages: Vec<String> = error.findings.iter().map(|f| f.message.clone()).collect();
    assert_eq!(
        messages,
        vec![
            "Source state `s1` has 2 transitions for trigger `z`.".to_string(),
            "Source state `s2` has 2 transitions for trigger `b`.".to_string(),
            "Source state `s2` has 2 transitions for trigger `<none>`.".to_string(),
        ]
    );
}

#[test]
fn model_without_machines_is_rejected() {
    let model = SimulationModel { id: "demo".to_string(), machines: Vec::new() };
    let error = validate_simulation_model(&model).unwrap_err();
    assert_eq!(
        error.findings,
        vec![finding("model.no_machines", "Simulation model has no state machines.", None, None)]
    );
}

#[test]
fn machine_without_states_reports_no_states_only() {
    let model = machine(Vec::new(), Vec::new());
    let error = validate_simulation_model(&model).unwrap_err();
    assert_eq!(codes(&error), vec!["machine.no_states".to_string()]);
}

#[test]
fn duplicate_and_initial_findings_come_in_order() {
    let model = machine(vec![state("s1", false), state("s1", false)], Vec::new());
    let error = validate_simulation_model(&model).unwrap_err();
    assert_eq!(
        codes(&error),
        vec!["state.duplicate_id".to_string(), "machine.no_initial_state".to_string()]
    );
    assert_eq!(error.findings[0].element_id.as_deref(), Some("s1"));
}

#[test]
fn multiple_top_level_initial_states_are_rejected() {
    let model = machine(vec![state("s1", true), state("s2", true)], Vec::new());
    let error = validate_simulation_model(&model).unwrap_err();
    assert_eq!(codes(&error), vec!["machine.multiple_initial_states".to_string()]);
}

#[test]
fn missing_parent_and_initial_children_are_reported() {
    let model = machine(
        vec![
            state("top", true),
            child("a", "top", true),
            child("b", "top", true),
            child("orphan", "nowhere", false),
        ],
        Vec::new(),
    );
    let error = validate_simulation_model(&model).unwrap_err();
    assert_eq!(
        codes(&error),
        vec!["state.missing_parent".to_string(), "state.multiple_initial_children".to_string()]
    );
    assert_eq!(error.findings[0].element_id.as_deref(), Some("orphan"));
    assert_eq!(error.findings[1].element_id.as_deref(), Some("top"));
}

#[test]
fn orthogonal_parent_may_have_several_initial_children() {
    let mut top = state("top", true);
    top.is_orthogonal = true;
    let model = machine(vec![top, child("a", "top", true), child("b", "top", true)], Vec::new());
    assert!(validate_simulation_model(&model).is_ok());
}

#[test]
fn transition_endpoints_and_trigger_values_are_checked() {
    let mut empty = transition("t2", "s1", "s1", "");
    empty.trigger.value = Some(String::new());
    let mut none = transition("t3", "s1", "s1", "");
    none.trigger = SimulationTrigger { kind: SimulationTriggerKind::Time, value: None };
    let model = machine(
        vec![state("s1", true)],
        vec![transition("t1", "x", "y", "go"), empty, none],
    );
    let error = validate_simulation_model(&model).unwrap_err();
    assert_eq!(
        codes(&error),
        vec![
            "transition.missing_source".to_string(),
            "transition.missing_target".to_string(),
            "transition.missing_trigger".to_string(),
            "transition.missing_trigger".to_string(),
        ]
    );
}

#[test]
fn completion_transitions_need_no_trigger_value() {
    let mut done = transition("t1", "s1", "s2", "");
    done.trigger = SimulationTrigger { kind: SimulationTriggerKind::Completion, value: None };
    let model = machine(vec![state("s1", true), state("s2", false)], vec![done]);
    assert!(validate_simulation_model(&model).is_ok());
}

#[test]
fn profile_error_displays_its_finding_count() {
    let model = machine(vec![state("s1", false), state("s1", false)], Vec::new());
    let error = validate_simulation_model(&model).unwrap_err();
    assert_eq!(error.to_display_string(), "invalid simulation profile: 2 finding(s)");
}
