//! The canonical simulation model: state machines with states and
//! transitions, and the findings of its profile validation.
use vstd::prelude::*;

verus! {

/// What fires a transition.
#[derive(Debug, Clone, Copy, PartialEq, Eq, Structural, PartialOrd, Ord, Hash)]
pub enum SimulationTriggerKind {
    Event,
    Signal,
    Time,
    After,
    Change,
    Completion,
}

/// A transition's trigger: its kind and, for most kinds, a value such as
/// the event name or the delay.
#[derive(Debug, Clone, PartialEq)]
pub struct SimulationTrigger {
    pub kind: SimulationTriggerKind,
    pub value: Option<String>,
}

/// A transition guard: an expression in the expression IR, or a runtime
/// feature read as a boolean.
#[derive(Debug)]
pub enum SimulationGuard {
    ExpressionIr(serde_json::Value),
    RuntimeFeature(String),
}

/// `feature := value`.
#[derive(Debug)]
pub struct AssignEffect {
    pub feature: String,
    pub value: serde_json::Value,
}

/// Emits a signal, optionally to a target.
#[derive(Debug, Clone, PartialEq, Eq)]
pub struct SignalEffect {
    pub signal_type: String,
    pub target: Option<String>,
}

/// Records a log entry.
#[derive(Debug, Clone, PartialEq, Eq)]
pub struct LogEffect {
    pub kind: String,
    pub source: Option<String>,
}

/// An effect of a transition or of entering or leaving a state.
#[derive(Debug)]
pub enum SimulationEffect {
    Assign(AssignEffect),
    EmitSignal(SignalEffect),
    Log(LogEffect),
}

/// An ordered list of effects.
#[derive(Debug)]
pub struct SimulationActionSequence {
    pub actions: Vec<SimulationEffect>,
}

/// Where a rate's value comes from. A constant rate is held as the bit
/// pattern of its `f64` value.
#[derive(Debug)]
pub enum SimulationRateSource {
    Constant(u64),
    Feature(String),
    ExpressionIr(serde_json::Value),
}

/// The rate at which a feature changes while a state is active.
#[derive(Debug)]
pub struct SimulationRate {
    pub feature: String,
    pub source: SimulationRateSource,
}

/// What a state does while it is active.
#[derive(Debug)]
pub enum StateDoBehavior {
    RateIntegration { rates: Vec<SimulationRate> },
}

/// A state of a machine; `parent_state_id` names the enclosing compound
/// state.
#[derive(Debug)]
pub struct SimulationState {
    pub id: String,
    pub label: String,
    pub parent_state_id: Option<String>,
    pub is_initial: bool,
    pub is_final: bool,
    pub is_orthogonal: bool,
    pub is_history: bool,
    pub entry_behavior: Option<SimulationActionSequence>,
    pub exit_behavior: Option<SimulationActionSequence>,
    pub do_behavior: Option<StateDoBehavior>,
}

/// A transition between two states of a machine.
#[derive(Debug)]
pub struct SimulationTransition {
    pub id: String,
    pub source: String,
    pub target: String,
    pub trigger: SimulationTrigger,
    pub guard: Option<SimulationGuard>,
    pub effects: Vec<SimulationEffect>,
}

/// A state machine.
#[derive(Debug)]
pub struct SimulationStateMachine {
    pub id: String,
    pub label: String,
    pub states: Vec<SimulationState>,
    pub transitions: Vec<SimulationTransition>,
}

/// A simulation model: the machines of a system.
#[derive(Debug)]
pub struct SimulationModel {
    pub id: String,
    pub machines: Vec<SimulationStateMachine>,
}

/// The subject a simulation runs for, and its type.
#[derive(Debug, Clone, PartialEq, Eq)]
pub struct SimulationSubject {
    pub id: String,
    pub type_id: Option<String>,
}

/// One subject of a concurrent scenario: its machine, initial state and
/// events.
#[derive(Debug, Clone, PartialEq, Eq)]
pub struct ConcurrentSubjectScenario {
    pub subject_id: String,
    pub machine_id: String,
    pub initial_state_id: Option<String>,
    pub events: Vec<SimulationEvent>,
}

/// An event of a scenario and the trigger it raises.
#[derive(Debug, Clone, PartialEq, Eq)]
pub struct SimulationEvent {
    pub id: String,
    pub trigger: String,
}

/// An analysis case found in a model.
#[derive(Debug, Clone, PartialEq, Eq)]
pub struct AnalysisCaseInfo {
    pub id: String,
    pub label: String,
    pub subject_count: usize,
}

/// A channel of a simulation trace.
#[derive(Debug, Clone, PartialEq, Eq)]
pub struct TraceChannel {
    pub id: String,
    pub unit: Option<String>,
    pub source: TraceChannelSource,
}

/// What produces a trace channel's values.
#[derive(Debug, Clone, Copy, PartialEq, Eq, Structural)]
pub enum TraceChannelSource {
    StateMachine,
    RateEffect,
    AssignEffect,
}

/// An event recorded in a trace entry.
#[derive(Debug, Clone, PartialEq, Eq)]
pub struct TraceEvent {
    pub kind: String,
    pub transition_id: Option<String>,
    pub trigger: Option<String>,
}

/// How a simulation run ended.
#[derive(Debug, Clone, Copy, PartialEq, Eq, Structural)]
pub enum HybridSimulationStatus {
    Completed,
    Blocked,
    Failed,
}

/// One problem found by validation.
#[derive(Debug, Clone, PartialEq, Eq)]
pub struct SimulationProfileFinding {
    pub code: String,
    pub message: String,
    pub machine_id: Option<String>,
    pub element_id: Option<String>,
}

/// A model that failed validation, with what was found.
#[derive(Debug, Clone, PartialEq, Eq)]
pub struct SimulationProfileError {
    pub findings: Vec<SimulationProfileFinding>,
}

/// A finding with character sequences for its strings.
pub struct FindingView {
    pub code: Seq<char>,
    pub message: Seq<char>,
    pub machine_id: Option<Seq<char>>,
    pub element_id: Option<Seq<char>>,
}

/// The view of an optional string.
pub open spec fn opt_str(o: Option<String>) -> Option<Seq<char>> {
    match o {
        Some(s) => Some(s@),
        None => None,
    }
}

impl View for SimulationProfileFinding {
    type V = FindingView;

    open spec fn view(&self) -> FindingView {
        FindingView {
            code: self.code@,
            message: self.message@,
            machine_id: opt_str(self.machine_id),
            element_id: opt_str(self.element_id),
        }
    }
}

/// The views of a list of findings.
pub open spec fn findings_view(v: Seq<SimulationProfileFinding>) -> Seq<FindingView> {
    v.map_values(|f: SimulationProfileFinding| f@)
}

impl SimulationProfileError {
    /// `invalid simulation profile: <n> finding(s)`.
    pub fn to_display_string(&self) -> (s: String)
        ensures
            s@ == "invalid simulation profile: "@ + crate::text::decimal(self.findings@.len())
                + " finding(s)"@,
    {
        let n = crate::text::usize_to_string(self.findings.len());
        crate::text::concat3("invalid simulation profile: ", n.as_str(), " finding(s)")
    }
}

} // verus!
