//! Validation of a simulation model against the simulation profile.
use vstd::prelude::*;

use crate::simulation_core::model::{
    FindingView, SimulationModel, SimulationProfileError, SimulationProfileFinding,
    SimulationStateMachine, SimulationTransition, SimulationTriggerKind, findings_view, opt_str,
};
use crate::text::{concat3, decimal, str_eq, usize_to_string};
use crate::text_order::{
    lemma_seq_lt_irreflexive, lemma_seq_lt_transitive, lemma_seq_lt_trichotomy, seq_lt, str_lt,
};

verus! {

// ------------------------------------------------------------ findings

/// A finding.
pub open spec fn fv(
    code: Seq<char>,
    message: Seq<char>,
    machine_id: Option<Seq<char>>,
    element_id: Option<Seq<char>>,
) -> FindingView {
    FindingView { code, message, machine_id, element_id }
}

/// The view of an optional string slice.
pub open spec fn opt_slice(o: Option<&str>) -> Option<Seq<char>> {
    match o {
        Some(s) => Some(s@),
        None => None,
    }
}

/// Builds a finding.
pub fn finding(code: &str, message: &str, machine_id: Option<&str>, element_id: Option<&str>) -> (f:
    SimulationProfileFinding)
    ensures
        f@ == fv(code@, message@, opt_slice(machine_id), opt_slice(element_id)),
{
    SimulationProfileFinding {
        code: String::from_str(code),
        message: String::from_str(message),
        machine_id: match machine_id {
            Some(s) => Some(String::from_str(s)),
            None => None,
        },
        element_id: match element_id {
            Some(s) => Some(String::from_str(s)),
            None => None,
        },
    }
}

// ------------------------------------------------------------ states

/// Some state of `m` has id `id`.
pub open spec fn has_state_id(m: SimulationStateMachine, id: Seq<char>) -> bool {
    exists|k: int| 0 <= k < m.states@.len() && (#[trigger] m.states@[k]).id@ == id
}

/// The state at `j` repeats the id of an earlier state.
pub open spec fn is_dup_at(m: SimulationStateMachine, j: int) -> bool {
    exists|k: int| 0 <= k < j && (#[trigger] m.states@[k]).id@ == m.states@[j].id@
}

/// The finding for the state at `j`, if its id repeats an earlier one.
pub open spec fn dup_item(m: SimulationStateMachine, j: int) -> Seq<FindingView> {
    if is_dup_at(m, j) {
        seq![
            fv(
                "state.duplicate_id"@,
                "State IDs must be unique within a simulation machine."@,
                Some(m.id@),
                Some(m.states@[j].id@),
            ),
        ]
    } else {
        Seq::empty()
    }
}

/// The duplicate-id findings of the first `n` states.
pub open spec fn dup_upto(m: SimulationStateMachine, n: int) -> Seq<FindingView>
    decreases n,
{
    if n <= 0 {
        Seq::empty()
    } else {
        dup_upto(m, n - 1) + dup_item(m, n - 1)
    }
}

/// How many of the first `n` states are top-level initial states.
pub open spec fn top_initial_upto(m: SimulationStateMachine, n: int) -> nat
    decreases n,
{
    if n <= 0 {
        0
    } else {
        top_initial_upto(m, n - 1) + if m.states@[n - 1].parent_state_id is None
            && m.states@[n - 1].is_initial {
            1nat
        } else {
            0nat
        }
    }
}

/// The number of top-level initial states.
pub open spec fn top_initial_count(m: SimulationStateMachine) -> nat {
    top_initial_upto(m, m.states@.len() as int)
}

/// The finding for a machine without states.
pub open spec fn no_states_section(m: SimulationStateMachine) -> Seq<FindingView> {
    if m.states@.len() == 0 {
        seq![fv("machine.no_states"@, "State machine has no states."@, Some(m.id@), None)]
    } else {
        Seq::empty()
    }
}

/// The findings on the number of top-level initial states.
pub open spec fn initial_section(m: SimulationStateMachine) -> Seq<FindingView> {
    (if top_initial_count(m) == 0 && m.states@.len() > 0 {
        seq![
            fv(
                "machine.no_initial_state"@,
                "State machine must have a top-level initial state."@,
                Some(m.id@),
                None,
            ),
        ]
    } else {
        Seq::empty()
    }) + (if top_initial_count(m) > 1 {
        seq![
            fv(
                "machine.multiple_initial_states"@,
                "State machine has more than one top-level initial state."@,
                Some(m.id@),
                None,
            ),
        ]
    } else {
        Seq::empty()
    })
}

/// The finding for the state at `j`, if its parent is not a state of the
/// machine.
pub open spec fn parent_item(m: SimulationStateMachine, j: int) -> Seq<FindingView> {
    match m.states@[j].parent_state_id {
        Some(p) => if !has_state_id(m, p@) {
            seq![
                fv(
                    "state.missing_parent"@,
                    "State parent must reference another state in the same machine."@,
                    Some(m.id@),
                    Some(m.states@[j].id@),
                ),
            ]
        } else {
            Seq::empty()
        },
        None => Seq::empty(),
    }
}

/// The missing-parent findings of the first `n` states.
pub open spec fn parent_upto(m: SimulationStateMachine, n: int) -> Seq<FindingView>
    decreases n,
{
    if n <= 0 {
        Seq::empty()
    } else {
        parent_upto(m, n - 1) + parent_item(m, n - 1)
    }
}

/// How many of the first `n` states are initial children of `pid`.
pub open spec fn initial_children_upto(m: SimulationStateMachine, pid: Seq<char>, n: int) -> nat
    decreases n,
{
    if n <= 0 {
        0
    } else {
        initial_children_upto(m, pid, n - 1) + if opt_str(m.states@[n - 1].parent_state_id)
            == Some(pid) && m.states@[n - 1].is_initial {
            1nat
        } else {
            0nat
        }
    }
}

/// The number of initial children of the state with id `pid`.
pub open spec fn initial_children_count(m: SimulationStateMachine, pid: Seq<char>) -> nat {
    initial_children_upto(m, pid, m.states@.len() as int)
}

/// The finding for the state at `j`, if it has several initial children
/// but is not orthogonal.
pub open spec fn children_item(m: SimulationStateMachine, j: int) -> Seq<FindingView> {
    if initial_children_count(m, m.states@[j].id@) > 1 && !m.states@[j].is_orthogonal {
        seq![
            fv(
                "state.multiple_initial_children"@,
                "Compound state has multiple initial children but is not marked orthogonal."@,
                Some(m.id@),
                Some(m.states@[j].id@),
            ),
        ]
    } else {
        Seq::empty()
    }
}

/// The initial-children findings of the first `n` states.
pub open spec fn children_upto(m: SimulationStateMachine, n: int) -> Seq<FindingView>
    decreases n,
{
    if n <= 0 {
        Seq::empty()
    } else {
        children_upto(m, n - 1) + children_item(m, n - 1)
    }
}

// ------------------------------------------------------------ transitions

/// Trigger kinds that need a trigger value.
pub open spec fn needs_trigger_value(k: SimulationTriggerKind) -> bool {
    !(k is Completion)
}

/// The transition is triggered but declares no (or an empty) value.
pub open spec fn trigger_missing(t: SimulationTransition) -> bool {
    needs_trigger_value(t.trigger.kind) && match t.trigger.value {
        None => true,
        Some(v) => v@.len() == 0,
    }
}

/// The findings for the transition at `j`.
pub open spec fn transition_item(m: SimulationStateMachine, j: int) -> Seq<FindingView> {
    let t = m.transitions@[j];
    (if !has_state_id(m, t.source@) {
        seq![
            fv(
                "transition.missing_source"@,
                "Transition source must reference a state in the same machine."@,
                Some(m.id@),
                Some(t.id@),
            ),
        ]
    } else {
        Seq::empty()
    }) + (if !has_state_id(m, t.target@) {
        seq![
            fv(
                "transition.missing_target"@,
                "Transition target must reference a state in the same machine."@,
                Some(m.id@),
                Some(t.id@),
            ),
        ]
    } else {
        Seq::empty()
    }) + (if trigger_missing(t) {
        seq![
            fv(
                "transition.missing_trigger"@,
                "Triggered transitions must declare a trigger value."@,
                Some(m.id@),
                Some(t.id@),
            ),
        ]
    } else {
        Seq::empty()
    })
}

/// The findings of the first `n` transitions.
pub open spec fn transition_upto(m: SimulationStateMachine, n: int) -> Seq<FindingView>
    decreases n,
{
    if n <= 0 {
        Seq::empty()
    } else {
        transition_upto(m, n - 1) + transition_item(m, n - 1)
    }
}

/// What makes two transitions compete: their source, trigger kind and
/// trigger value.
pub struct TriggerKey {
    pub source: Seq<char>,
    pub kind: SimulationTriggerKind,
    pub value: Option<Seq<char>>,
}

/// The key of a transition.
pub open spec fn key_of(t: SimulationTransition) -> TriggerKey {
    TriggerKey { source: t.source@, kind: t.trigger.kind, value: opt_str(t.trigger.value) }
}

/// The position of a trigger kind in declaration order.
pub open spec fn kind_rank(k: SimulationTriggerKind) -> int {
    match k {
        SimulationTriggerKind::Event => 0,
        SimulationTriggerKind::Signal => 1,
        SimulationTriggerKind::Time => 2,
        SimulationTriggerKind::After => 3,
        SimulationTriggerKind::Change => 4,
        SimulationTriggerKind::Completion => 5,
    }
}

/// `None` sorts first; values by string order.
pub open spec fn opt_lt(a: Option<Seq<char>>, b: Option<Seq<char>>) -> bool {
    match (a, b) {
        (None, Some(_)) => true,
        (Some(x), Some(y)) => seq_lt(x, y),
        _ => false,
    }
}

/// The order of keys: by source, then kind, then value.
pub open spec fn key_lt(a: TriggerKey, b: TriggerKey) -> bool {
    ||| seq_lt(a.source, b.source)
    ||| a.source == b.source && kind_rank(a.kind) < kind_rank(b.kind)
    ||| a.source == b.source && a.kind == b.kind && opt_lt(a.value, b.value)
}

/// How many of the first `n` transitions have key `k`.
pub open spec fn key_count_upto(m: SimulationStateMachine, k: TriggerKey, n: int) -> nat
    decreases n,
{
    if n <= 0 {
        0
    } else {
        key_count_upto(m, k, n - 1) + if key_of(m.transitions@[n - 1]) == k {
            1nat
        } else {
            0nat
        }
    }
}

/// How many transitions have key `k`.
pub open spec fn key_count(m: SimulationStateMachine, k: TriggerKey) -> nat {
    key_count_upto(m, k, m.transitions@.len() as int)
}

/// The finding for a key shared by several transitions.
pub open spec fn ambiguous_finding(m: SimulationStateMachine, k: TriggerKey) -> FindingView {
    fv(
        "transition.ambiguous_trigger"@,
        "Source state `"@ + k.source + "` has "@ + decimal(key_count(m, k)) + " transitions for trigger `"@
            + match k.value {
            Some(v) => v,
            None => "<none>"@,
        } + "`."@,
        Some(m.id@),
        Some(k.source),
    )
}

/// `ks` lists, in key order, exactly the keys that several transitions
/// share.
pub open spec fn ambiguous_keys(m: SimulationStateMachine, ks: Seq<TriggerKey>) -> bool {
    &&& forall|j: int| 0 <= j < ks.len() ==> key_count(m, #[trigger] ks[j]) > 1
    &&& forall|j: int, l: int| 0 <= j < l < ks.len() ==> key_lt(#[trigger] ks[j], #[trigger] ks[l])
    &&& forall|k: TriggerKey| key_count(m, k) > 1 ==> #[trigger] ks.contains(k)
}

/// The keys that several transitions share, in key order.
pub open spec fn ambiguous_key_seq(m: SimulationStateMachine) -> Seq<TriggerKey> {
    choose|ks: Seq<TriggerKey>| ambiguous_keys(m, ks)
}

/// The ambiguous-trigger findings of a machine.
pub open spec fn ambiguous_section(m: SimulationStateMachine) -> Seq<FindingView> {
    ambiguous_key_seq(m).map_values(|k: TriggerKey| ambiguous_finding(m, k))
}

/// All findings of a machine, in the order they are reported.
pub open spec fn machine_findings(m: SimulationStateMachine) -> Seq<FindingView> {
    dup_upto(m, m.states@.len() as int) + no_states_section(m) + initial_section(m) + parent_upto(
        m,
        m.states@.len() as int,
    ) + children_upto(m, m.states@.len() as int) + transition_upto(
        m,
        m.transitions@.len() as int,
    ) + ambiguous_section(m)
}

/// The findings of the first `n` machines.
pub open spec fn machines_findings_upto(ms: Seq<SimulationStateMachine>, n: int) -> Seq<
    FindingView,
>
    decreases n,
{
    if n <= 0 {
        Seq::empty()
    } else {
        machines_findings_upto(ms, n - 1) + machine_findings(ms[n - 1])
    }
}

/// All findings of a model, in the order they are reported.
pub open spec fn model_findings(model: SimulationModel) -> Seq<FindingView> {
    (if model.machines@.len() == 0 {
        seq![
            fv(
                "model.no_machines"@,
                "Simulation model has no state machines."@,
                None,
                None,
            ),
        ]
    } else {
        Seq::empty()
    }) + machines_findings_upto(model.machines@, model.machines@.len() as int)
}

// ------------------------------------------------------------ validity

/// A state machine the simulation profile accepts: unique state ids, at
/// least one state, exactly one top-level initial state, parents that
/// exist, several initial children only under orthogonal states,
/// transitions between existing states with a trigger value where their
/// kind needs one, and no two transitions from one state on the same
/// trigger.
pub open spec fn machine_valid(m: SimulationStateMachine) -> bool {
    &&& forall|j: int| 0 <= j < m.states@.len() ==> !is_dup_at(m, j)
    &&& m.states@.len() > 0
    &&& top_initial_count(m) == 1
    &&& forall|j: int|
        0 <= j < m.states@.len() ==> match (#[trigger] m.states@[j]).parent_state_id {
            Some(p) => has_state_id(m, p@),
            None => true,
        }
    &&& forall|j: int|
        0 <= j < m.states@.len() && initial_children_count(m, (#[trigger] m.states@[j]).id@) > 1
            ==> m.states@[j].is_orthogonal
    &&& forall|j: int|
        0 <= j < m.transitions@.len() ==> has_state_id(m, (#[trigger] m.transitions@[j]).source@)
            && has_state_id(m, m.transitions@[j].target@) && !trigger_missing(m.transitions@[j])
    &&& forall|j: int|
        0 <= j < m.transitions@.len() ==> key_count(m, key_of(#[trigger] m.transitions@[j])) <= 1
}

/// A model the simulation profile accepts: at least one machine, every
/// machine valid.
pub open spec fn model_valid(model: SimulationModel) -> bool {
    &&& model.machines@.len() > 0
    &&& forall|j: int| 0 <= j < model.machines@.len() ==> machine_valid(#[trigger] model.machines@[j])
}

// ------------------------------------------------------------ laws of the key order

pub proof fn lemma_key_lt_irreflexive(a: TriggerKey)
    ensures
        !key_lt(a, a),
{
    lemma_seq_lt_irreflexive(a.source);
    match a.value {
        Some(v) => lemma_seq_lt_irreflexive(v),
        None => {},
    }
}

pub proof fn lemma_key_lt_trichotomy(a: TriggerKey, b: TriggerKey)
    ensures
        key_lt(a, b) || key_lt(b, a) || a == b,
        !(key_lt(a, b) && key_lt(b, a)),
{
    lemma_seq_lt_trichotomy(a.source, b.source);
    match (a.value, b.value) {
        (Some(x), Some(y)) => lemma_seq_lt_trichotomy(x, y),
        _ => {},
    }
}

pub proof fn lemma_key_lt_transitive(a: TriggerKey, b: TriggerKey, c: TriggerKey)
    requires
        key_lt(a, b),
        key_lt(b, c),
    ensures
        key_lt(a, c),
{
    lemma_key_lt_trichotomy(a, b);
    lemma_key_lt_trichotomy(b, c);
    if seq_lt(a.source, b.source) && seq_lt(b.source, c.source) {
        lemma_seq_lt_transitive(a.source, b.source, c.source);
    }
    match (a.value, b.value, c.value) {
        (Some(x), Some(y), Some(z)) => {
            if seq_lt(x, y) && seq_lt(y, z) {
                lemma_seq_lt_transitive(x, y, z);
            }
        },
        _ => {},
    }
}

/// The keys of `ks` are strictly increasing.
pub open spec fn keys_sorted(ks: Seq<TriggerKey>) -> bool {
    forall|j: int, l: int| 0 <= j < l < ks.len() ==> key_lt(#[trigger] ks[j], #[trigger] ks[l])
}

/// Two strictly increasing key sequences with the same members are equal.
pub proof fn lemma_sorted_keys_unique(a: Seq<TriggerKey>, b: Seq<TriggerKey>)
    requires
        keys_sorted(a),
        keys_sorted(b),
        forall|k: TriggerKey| a.contains(k) <==> b.contains(k),
    ensures
        a == b,
    decreases a.len(),
{
    if a.len() == 0 {
        if b.len() > 0 {
            assert(b.contains(b[0]));
        }
        assert(a =~= b);
    } else {
        assert(a.contains(a[0]));
        let j = choose|j: int| 0 <= j < b.len() && b[j] == a[0];
        assert(b.contains(b[0]));
        let i = choose|i: int| 0 <= i < a.len() && a[i] == b[0];
        if j > 0 {
            assert(key_lt(b[0], b[j]));
            if i > 0 {
                assert(key_lt(a[0], a[i]));
                lemma_key_lt_trichotomy(a[0], a[i]);
            } else {
                lemma_key_lt_irreflexive(a[0]);
            }
        }
        assert(a[0] == b[0]);
        let ta = a.drop_first();
        let tb = b.drop_first();
        assert forall|k: TriggerKey| ta.contains(k) <==> tb.contains(k) by {
            if ta.contains(k) {
                let p = choose|p: int| 0 <= p < ta.len() && ta[p] == k;
                assert(a[p + 1] == k);
                assert(key_lt(a[0], a[p + 1]));
                lemma_key_lt_irreflexive(a[0]);
                assert(b.contains(k));
                let q = choose|q: int| 0 <= q < b.len() && b[q] == k;
                assert(q != 0);
                assert(tb[q - 1] == k);
            }
            if tb.contains(k) {
                let p = choose|p: int| 0 <= p < tb.len() && tb[p] == k;
                assert(b[p + 1] == k);
                assert(key_lt(b[0], b[p + 1]));
                lemma_key_lt_irreflexive(b[0]);
                assert(a.contains(k));
                let q = choose|q: int| 0 <= q < a.len() && a[q] == k;
                assert(q != 0);
                assert(ta[q - 1] == k);
            }
        }
        assert(keys_sorted(ta)) by {
            assert forall|x: int, y: int| 0 <= x < y < ta.len() implies key_lt(ta[x], ta[y]) by {
                assert(key_lt(a[x + 1], a[y + 1]));
            }
        }
        assert(keys_sorted(tb)) by {
            assert forall|x: int, y: int| 0 <= x < y < tb.len() implies key_lt(tb[x], tb[y]) by {
                assert(key_lt(b[x + 1], b[y + 1]));
            }
        }
        lemma_sorted_keys_unique(ta, tb);
        assert(a =~= seq![a[0]] + ta);
        assert(b =~= seq![b[0]] + tb);
    }
}

/// A key shared by transitions is the key of one of them.
pub proof fn lemma_key_count_witness(m: SimulationStateMachine, k: TriggerKey, n: int)
    requires
        key_count_upto(m, k, n) > 0,
        n <= m.transitions@.len(),
    ensures
        exists|i: int| 0 <= i < n && key_of(#[trigger] m.transitions@[i]) == k,
    decreases n,
{
    if n > 0 {
        if key_of(m.transitions@[n - 1]) == k {
            assert(key_of(m.transitions@[n - 1]) == k);
        } else {
            lemma_key_count_witness(m, k, n - 1);
            let i = choose|i: int| 0 <= i < n - 1 && key_of(#[trigger] m.transitions@[i]) == k;
            assert(key_of(m.transitions@[i]) == k);
        }
    }
}

/// Whether the transition at `i` is a candidate for the next ambiguous
/// key after `last`.
pub open spec fn is_candidate(m: SimulationStateMachine, last: Option<TriggerKey>, i: int) -> bool {
    key_count(m, key_of(m.transitions@[i])) > 1 && match last {
        Some(l) => key_lt(l, key_of(m.transitions@[i])),
        None => true,
    }
}

/// How many of the first `n` transitions are candidates after `last`.
pub open spec fn candidate_count(m: SimulationStateMachine, last: Option<TriggerKey>, n: int) -> nat
    decreases n,
{
    if n <= 0 {
        0
    } else {
        candidate_count(m, last, n - 1) + if is_candidate(m, last, n - 1) {
            1nat
        } else {
            0nat
        }
    }
}

proof fn lemma_candidate_count_shrinks(
    m: SimulationStateMachine,
    last: Option<TriggerKey>,
    next: TriggerKey,
    b: int,
    n: int,
)
    requires
        0 <= b < n <= m.transitions@.len(),
        is_candidate(m, last, b),
        key_of(m.transitions@[b]) == next,
    ensures
        candidate_count(m, Some(next), n) < candidate_count(m, last, n),
    decreases n,
{
    lemma_candidate_count_le(m, last, next, n - 1);
    if b == n - 1 {
        lemma_key_lt_irreflexive(next);
    } else {
        lemma_candidate_count_shrinks(m, last, next, b, n - 1);
        let i = n - 1;
        if is_candidate(m, Some(next), i) {
            match last {
                Some(l) => lemma_key_lt_transitive(l, next, key_of(m.transitions@[i])),
                None => {},
            }
        }
    }
}

proof fn lemma_candidate_count_le(
    m: SimulationStateMachine,
    last: Option<TriggerKey>,
    next: TriggerKey,
    n: int,
)
    requires
        n <= m.transitions@.len(),
        match last {
            Some(l) => key_lt(l, next),
            None => true,
        },
    ensures
        candidate_count(m, Some(next), n) <= candidate_count(m, last, n),
    decreases n,
{
    if n > 0 {
        lemma_candidate_count_le(m, last, next, n - 1);
        let i = n - 1;
        if is_candidate(m, Some(next), i) {
            match last {
                Some(l) => lemma_key_lt_transitive(l, next, key_of(m.transitions@[i])),
                None => {},
            }
        }
    }
}

// ------------------------------------------------------------ execution

/// Appends a finding.
fn push_finding(findings: &mut Vec<SimulationProfileFinding>, f: SimulationProfileFinding)
    ensures
        findings_view(final(findings)@) == findings_view(old(findings)@).push(f@),
{
    let ghost fv0 = f@;
    findings.push(f);
    assert(findings_view(findings@) =~= findings_view(old(findings)@).push(fv0));
}

/// Whether some state of the machine has id `id`.
fn has_state(machine: &SimulationStateMachine, id: &str) -> (r: bool)
    ensures
        r == has_state_id(*machine, id@),
{
    let mut k: usize = 0;
    while k < machine.states.len()
        invariant
            k <= machine.states@.len(),
            forall|x: int| 0 <= x < k ==> (#[trigger] machine.states@[x]).id@ != id@,
        decreases machine.states@.len() - k,
    {
        if str_eq(machine.states[k].id.as_str(), id) {
            return true;
        }
        k = k + 1;
    }
    false
}

/// Whether the state at `j` repeats the id of an earlier state.
fn seen_before(machine: &SimulationStateMachine, j: usize) -> (r: bool)
    requires
        j < machine.states@.len(),
    ensures
        r == is_dup_at(*machine, j as int),
{
    let mut k: usize = 0;
    while k < j
        invariant
            k <= j < machine.states@.len(),
            forall|x: int| 0 <= x < k ==> (#[trigger] machine.states@[x]).id@ != machine.states@[j as int].id@,
        decreases j - k,
    {
        if str_eq(machine.states[k].id.as_str(), machine.states[j].id.as_str()) {
            return true;
        }
        k = k + 1;
    }
    false
}

/// How many initial children the state with id `pid` has.
fn count_initial_children(machine: &SimulationStateMachine, pid: &str) -> (c: usize)
    ensures
        c == initial_children_count(*machine, pid@),
{
    let mut c: usize = 0;
    let mut k: usize = 0;
    while k < machine.states.len()
        invariant
            k <= machine.states@.len(),
            c == initial_children_upto(*machine, pid@, k as int),
            c <= k,
        decreases machine.states@.len() - k,
    {
        let state = &machine.states[k];
        let is_child = match &state.parent_state_id {
            Some(p) => str_eq(p.as_str(), pid),
            None => false,
        };
        if is_child && state.is_initial {
            c = c + 1;
        }
        k = k + 1;
    }
    c
}

/// Whether two optional strings are equal.
fn opt_str_eq(a: &Option<String>, b: &Option<String>) -> (r: bool)
    ensures
        r == (opt_str(*a) == opt_str(*b)),
{
    match (a, b) {
        (Some(x), Some(y)) => str_eq(x.as_str(), y.as_str()),
        (None, None) => true,
        _ => false,
    }
}

/// The position of a trigger kind in declaration order.
fn kind_position(k: SimulationTriggerKind) -> (r: u8)
    ensures
        r as int == kind_rank(k),
{
    match k {
        SimulationTriggerKind::Event => 0,
        SimulationTriggerKind::Signal => 1,
        SimulationTriggerKind::Time => 2,
        SimulationTriggerKind::After => 3,
        SimulationTriggerKind::Change => 4,
        SimulationTriggerKind::Completion => 5,
    }
}

/// Whether two transitions have the same key.
fn same_key(a: &SimulationTransition, b: &SimulationTransition) -> (r: bool)
    ensures
        r == (key_of(*a) == key_of(*b)),
{
    let r = str_eq(a.source.as_str(), b.source.as_str()) && kind_position(a.trigger.kind)
        == kind_position(b.trigger.kind) && opt_str_eq(&a.trigger.value, &b.trigger.value);
    proof {
        if kind_rank(a.trigger.kind) == kind_rank(b.trigger.kind) {
            assert(a.trigger.kind == b.trigger.kind);
        }
    }
    r
}

/// Whether the key of `a` sorts before the key of `b`.
fn key_less(a: &SimulationTransition, b: &SimulationTransition) -> (r: bool)
    ensures
        r == key_lt(key_of(*a), key_of(*b)),
{
    if str_lt(a.source.as_str(), b.source.as_str()) {
        return true;
    }
    if !str_eq(a.source.as_str(), b.source.as_str()) {
        return false;
    }
    let ka = kind_position(a.trigger.kind);
    let kb = kind_position(b.trigger.kind);
    if ka < kb {
        return true;
    }
    if ka != kb {
        return false;
    }
    proof {
        assert(a.trigger.kind == b.trigger.kind);
    }
    match (&a.trigger.value, &b.trigger.value) {
        (None, Some(_)) => true,
        (Some(x), Some(y)) => str_lt(x.as_str(), y.as_str()),
        _ => false,
    }
}

/// How many transitions share the key of the transition at `i`.
fn key_count_at(machine: &SimulationStateMachine, i: usize) -> (c: usize)
    requires
        i < machine.transitions@.len(),
    ensures
        c == key_count(*machine, key_of(machine.transitions@[i as int])),
{
    let ghost k = key_of(machine.transitions@[i as int]);
    let mut c: usize = 0;
    let mut x: usize = 0;
    while x < machine.transitions.len()
        invariant
            i < machine.transitions@.len(),
            k == key_of(machine.transitions@[i as int]),
            x <= machine.transitions@.len(),
            c == key_count_upto(*machine, k, x as int),
            c <= x,
        decreases machine.transitions@.len() - x,
    {
        let same = same_key(&machine.transitions[x], &machine.transitions[i]);
        assert(same == (key_of(machine.transitions@[x as int]) == k));
        assert(key_count_upto(*machine, k, x + 1) == key_count_upto(*machine, k, x as int) + if same {
            1nat
        } else {
            0nat
        });
        if same {
            c = c + 1;
        }
        x = x + 1;
    }
    c
}

/// The ambiguous-trigger finding for the key of the transition at `b`.
fn ambiguous_trigger_finding(machine: &SimulationStateMachine, b: usize, count: usize) -> (f:
    SimulationProfileFinding)
    requires
        b < machine.transitions@.len(),
        count == key_count(*machine, key_of(machine.transitions@[b as int])),
    ensures
        f@ == ambiguous_finding(*machine, key_of(machine.transitions@[b as int])),
{
    let t = &machine.transitions[b];
    let source = t.source.as_str();
    let mut message = concat3("Source state `", source, "` has ");
    let count_text = usize_to_string(count);
    message.append(count_text.as_str());
    message.append(" transitions for trigger `");
    match &t.trigger.value {
        Some(v) => message.append(v.as_str()),
        None => message.append("<none>"),
    }
    message.append("`.");
    SimulationProfileFinding {
        code: String::from_str("transition.ambiguous_trigger"),
        message,
        machine_id: Some(machine.id.clone()),
        element_id: Some(t.source.clone()),
    }
}

/// Appends the duplicate-id findings of `machine`.
#[verifier::loop_isolation(false)]
fn duplicate_findings(machine: &SimulationStateMachine, findings: &mut Vec<SimulationProfileFinding>)
    ensures
        findings_view(final(findings)@) == findings_view(old(findings)@) + dup_upto(
            *machine,
            machine.states@.len() as int,
        ),
{
    let ghost m = *machine;
    let ghost base = findings_view(findings@);
    let n = machine.states.len();
    let mid = machine.id.as_str();
    let mut j: usize = 0;
    while j < n
        invariant
            n == m.states@.len(),
            j <= n,
            findings_view(findings@) == base + dup_upto(m, j as int),
        decreases n - j,
    {
        if seen_before(machine, j) {
            push_finding(
                findings,
                finding(
                    "state.duplicate_id",
                    "State IDs must be unique within a simulation machine.",
                    Some(mid),
                    Some(machine.states[j].id.as_str()),
                ),
            );
        }
        assert(dup_upto(m, j + 1) == dup_upto(m, j as int) + dup_item(m, j as int));
        j = j + 1;
    }
}

/// Appends the findings on the number of states and of top-level initial
/// states.
#[verifier::loop_isolation(false)]
fn initial_findings(machine: &SimulationStateMachine, findings: &mut Vec<SimulationProfileFinding>)
    ensures
        findings_view(final(findings)@) == findings_view(old(findings)@) + no_states_section(
            *machine,
        ) + initial_section(*machine),
{
    let ghost m = *machine;
    let ghost s1 = findings_view(findings@);
    let n = machine.states.len();
    let mid = machine.id.as_str();
    if n == 0 {
        push_finding(
            findings,
            finding("machine.no_states", "State machine has no states.", Some(mid), None),
        );
    }
    assert(findings_view(findings@) =~= s1 + no_states_section(m));
    let ghost s2 = s1 + no_states_section(m);
    let mut top: usize = 0;
    let mut k: usize = 0;
    while k < n
        invariant
            n == m.states@.len(),
            k <= n,
            top == top_initial_upto(m, k as int),
            top <= k,
        decreases n - k,
    {
        if machine.states[k].parent_state_id.is_none() && machine.states[k].is_initial {
            top = top + 1;
        }
        k = k + 1;
    }
    if top == 0 && n > 0 {
        push_finding(
            findings,
            finding(
                "machine.no_initial_state",
                "State machine must have a top-level initial state.",
                Some(mid),
                None,
            ),
        );
    }
    if top > 1 {
        push_finding(
            findings,
            finding(
                "machine.multiple_initial_states",
                "State machine has more than one top-level initial state.",
                Some(mid),
                None,
            ),
        );
    }
    assert(findings_view(findings@) =~= s2 + initial_section(m));
}

/// Appends the missing-parent findings.
#[verifier::loop_isolation(false)]
fn parent_findings(machine: &SimulationStateMachine, findings: &mut Vec<SimulationProfileFinding>)
    ensures
        findings_view(final(findings)@) == findings_view(old(findings)@) + parent_upto(
            *machine,
            machine.states@.len() as int,
        ),
{
    let ghost m = *machine;
    let ghost s3 = findings_view(findings@);
    let n = machine.states.len();
    let mid = machine.id.as_str();
    let mut j: usize = 0;
    while j < n
        invariant
            n == m.states@.len(),
            j <= n,
            findings_view(findings@) == s3 + parent_upto(m, j as int),
        decreases n - j,
    {
        match &machine.states[j].parent_state_id {
            Some(parent_id) => {
                if !has_state(machine, parent_id.as_str()) {
                    push_finding(
                        findings,
                        finding(
                            "state.missing_parent",
                            "State parent must reference another state in the same machine.",
                            Some(mid),
                            Some(machine.states[j].id.as_str()),
                        ),
                    );
                }
            },
            None => {},
        }
        assert(parent_upto(m, j + 1) == parent_upto(m, j as int) + parent_item(m, j as int));
        j = j + 1;
    }
}

/// Appends the initial-children findings.
#[verifier::loop_isolation(false)]
fn children_findings(machine: &SimulationStateMachine, findings: &mut Vec<SimulationProfileFinding>)
    ensures
        findings_view(final(findings)@) == findings_view(old(findings)@) + children_upto(
            *machine,
            machine.states@.len() as int,
        ),
{
    let ghost m = *machine;
    let ghost s4 = findings_view(findings@);
    let n = machine.states.len();
    let mid = machine.id.as_str();
    let mut j: usize = 0;
    while j < n
        invariant
            n == m.states@.len(),
            j <= n,
            findings_view(findings@) == s4 + children_upto(m, j as int),
        decreases n - j,
    {
        let parent = &machine.states[j];
        let initial_child_count = count_initial_children(machine, parent.id.as_str());
        if initial_child_count > 1 && !parent.is_orthogonal {
            push_finding(
                findings,
                finding(
                    "state.multiple_initial_children",
                    "Compound state has multiple initial children but is not marked orthogonal.",
                    Some(mid),
                    Some(parent.id.as_str()),
                ),
            );
        }
        assert(children_upto(m, j + 1) == children_upto(m, j as int) + children_item(m, j as int));
        j = j + 1;
    }
}

/// Appends the findings on each transition.
#[verifier::loop_isolation(false)]
fn transition_findings(machine: &SimulationStateMachine, findings: &mut Vec<SimulationProfileFinding>)
    ensures
        findings_view(final(findings)@) == findings_view(old(findings)@) + transition_upto(
            *machine,
            machine.transitions@.len() as int,
        ),
{
    let ghost m = *machine;
    let ghost s5 = findings_view(findings@);
    let mid = machine.id.as_str();
    let nt = machine.transitions.len();
    let mut j: usize = 0;
    while j < nt
        invariant
            nt == m.transitions@.len(),
            j <= nt,
            findings_view(findings@) == s5 + transition_upto(m, j as int),
        decreases nt - j,
    {
        let ghost before = findings_view(findings@);
        let transition = &machine.transitions[j];
        let tid = transition.id.as_str();
        if !has_state(machine, transition.source.as_str()) {
            push_finding(
                findings,
                finding(
                    "transition.missing_source",
                    "Transition source must reference a state in the same machine.",
                    Some(mid),
                    Some(tid),
                ),
            );
        }
        if !has_state(machine, transition.target.as_str()) {
            push_finding(
                findings,
                finding(
                    "transition.missing_target",
                    "Transition target must reference a state in the same machine.",
                    Some(mid),
                    Some(tid),
                ),
            );
        }
        let needs_value = match transition.trigger.kind {
            SimulationTriggerKind::Completion => false,
            _ => true,
        };
        let empty_value = match &transition.trigger.value {
            None => true,
            Some(v) => v.as_str().unicode_len() == 0,
        };
        if needs_value && empty_value {
            push_finding(
                findings,
                finding(
                    "transition.missing_trigger",
                    "Triggered transitions must declare a trigger value.",
                    Some(mid),
                    Some(tid),
                ),
            );
        }
        assert(findings_view(findings@) =~= before + transition_item(m, j as int));
        assert(transition_upto(m, j + 1) == transition_upto(m, j as int) + transition_item(
            m,
            j as int,
        ));
        j = j + 1;
    }
}

/// Appends the ambiguous-trigger findings.
#[verifier::loop_isolation(false)]
#[verifier::rlimit(30)]
fn ambiguous_findings(machine: &SimulationStateMachine, findings: &mut Vec<SimulationProfileFinding>)
    ensures
        findings_view(final(findings)@) == findings_view(old(findings)@) + ambiguous_section(
            *machine,
        ),
        exists|ks: Seq<TriggerKey>| ambiguous_keys(*machine, ks),
{
    let ghost m = *machine;
    let ghost s6 = findings_view(findings@);
    let nt = machine.transitions.len();
    // Ambiguous triggers, in key order: repeatedly take the least key above
    // the last one taken that several transitions share.
    let ghost mut ks: Seq<TriggerKey> = Seq::empty();
    let mut last: Option<usize> = None;
    assert(findings_view(findings@) =~= s6 + ks.map_values(|k: TriggerKey| ambiguous_finding(m, k)));
    loop
        invariant
            nt == m.transitions@.len(),
            findings_view(findings@) == s6 + ks.map_values(
                |k: TriggerKey| ambiguous_finding(m, k),
            ),
            forall|x: int| 0 <= x < ks.len() ==> key_count(m, #[trigger] ks[x]) > 1,
            keys_sorted(ks),
            last is None <==> ks.len() == 0,
            last matches Some(l) ==> l < nt && ks.last() == key_of(m.transitions@[l as int]),
            forall|k: TriggerKey|
                key_count(m, k) > 1 && (last matches Some(l) && !key_lt(
                    key_of(m.transitions@[l as int]),
                    k,
                )) ==> #[trigger] ks.contains(k),
        decreases candidate_count(
            m,
            match last {
                Some(l) => Some(key_of(m.transitions@[l as int])),
                None => None,
            },
            nt as int,
        ),
    {
        let ghost lk: Option<TriggerKey> = match last {
            Some(l) => Some(key_of(m.transitions@[l as int])),
            None => None,
        };
        let mut best: Option<usize> = None;
        let mut i: usize = 0;
        while i < nt
            invariant
                nt == m.transitions@.len(),
                i <= nt,
                best matches Some(b) ==> b < nt && is_candidate(m, lk, b as int) && forall|x: int|
                    0 <= x < i && is_candidate(m, lk, x) ==> !key_lt(
                        key_of(#[trigger] m.transitions@[x]),
                        key_of(m.transitions@[b as int]),
                    ),
                best is None ==> forall|x: int| 0 <= x < i ==> !is_candidate(m, lk, x),
            decreases nt - i,
        {
            let count = key_count_at(machine, i);
            let above_last = match last {
                Some(l) => key_less(&machine.transitions[l], &machine.transitions[i]),
                None => true,
            };
            if count > 1 && above_last {
                let better = match best {
                    Some(b) => key_less(&machine.transitions[i], &machine.transitions[b]),
                    None => true,
                };
                if better {
                    proof {
                        assert forall|x: int|
                            0 <= x < i + 1 && is_candidate(m, lk, x) implies !key_lt(
                            key_of(#[trigger] m.transitions@[x]),
                            key_of(m.transitions@[i as int]),
                        ) by {
                            if x == i {
                                lemma_key_lt_irreflexive(key_of(m.transitions@[i as int]));
                            } else {
                                match best {
                                    Some(b) => {
                                        if key_lt(
                                            key_of(m.transitions@[x]),
                                            key_of(m.transitions@[i as int]),
                                        ) {
                                            lemma_key_lt_transitive(
                                                key_of(m.transitions@[x]),
                                                key_of(m.transitions@[i as int]),
                                                key_of(m.transitions@[b as int]),
                                            );
                                        }
                                    },
                                    None => {},
                                }
                            }
                        }
                    }
                    best = Some(i);
                }
            }
            i = i + 1;
        }
        match best {
            None => {
                proof {
                    assert forall|k: TriggerKey| key_count(m, k) > 1 implies #[trigger] ks.contains(
                        k,
                    ) by {
                        lemma_key_count_witness(m, k, nt as int);
                        let w = choose|w: int| 0 <= w < nt && key_of(#[trigger] m.transitions@[w]) == k;
                        assert(!is_candidate(m, lk, w));
                    }
                }
                break ;
            },
            Some(b) => {
                let count = key_count_at(machine, b);
                push_finding(findings, ambiguous_trigger_finding(machine, b, count));
                let ghost bk = key_of(m.transitions@[b as int]);
                proof {
                    let old_ks = ks;
                    ks = ks.push(bk);
                    assert(ks.map_values(|k: TriggerKey| ambiguous_finding(m, k)) =~= old_ks.map_values(
                        |k: TriggerKey| ambiguous_finding(m, k),
                    ).push(ambiguous_finding(m, bk)));
                    assert forall|x: int, y: int| 0 <= x < y < ks.len() implies key_lt(
                        #[trigger] ks[x],
                        #[trigger] ks[y],
                    ) by {
                        if y == ks.len() - 1 && old_ks.len() > 0 {
                            let lastk = old_ks.last();
                            if x < old_ks.len() - 1 {
                                lemma_key_lt_transitive(old_ks[x], lastk, bk);
                            }
                        }
                    }
                    assert forall|k: TriggerKey|
                        key_count(m, k) > 1 && !key_lt(bk, k) implies #[trigger] ks.contains(k) by {
                        if lk is Some && !key_lt(lk->Some_0, k) {
                            assert(old_ks.contains(k));
                            let p = choose|p: int| 0 <= p < old_ks.len() && old_ks[p] == k;
                            assert(ks[p] == k);
                        } else {
                            lemma_key_count_witness(m, k, nt as int);
                            let w = choose|w: int| 0 <= w < nt && key_of(#[trigger] m.transitions@[w]) == k;
                            assert(is_candidate(m, lk, w));
                            lemma_key_lt_trichotomy(k, bk);
                            assert(ks[ks.len() - 1] == bk);
                        }
                    }
                    lemma_candidate_count_shrinks(m, lk, bk, b as int, nt as int);
                }
                last = Some(b);
            },
        }
    }
    proof {
        assert(ambiguous_keys(m, ks));
        let chosen = ambiguous_key_seq(m);
        assert(ambiguous_keys(m, chosen));
        assert forall|k: TriggerKey| ks.contains(k) <==> chosen.contains(k) by {
            if ks.contains(k) {
                let p = choose|p: int| 0 <= p < ks.len() && ks[p] == k;
                assert(key_count(m, ks[p]) > 1);
            }
            if chosen.contains(k) {
                let p = choose|p: int| 0 <= p < chosen.len() && chosen[p] == k;
                assert(key_count(m, chosen[p]) > 1);
            }
        }
        lemma_sorted_keys_unique(ks, chosen);
        assert(ambiguous_section(m) == ks.map_values(|k: TriggerKey| ambiguous_finding(m, k)));
    }
}

/// The keys that several transitions of `m` share can be listed in order.
pub open spec fn keys_listable(m: SimulationStateMachine) -> bool {
    exists|ks: Seq<TriggerKey>| ambiguous_keys(m, ks)
}

/// Appends the findings of `machine` to `findings`.
fn validate_machine(machine: &SimulationStateMachine, findings: &mut Vec<SimulationProfileFinding>)
    ensures
        findings_view(final(findings)@) == findings_view(old(findings)@) + machine_findings(
            *machine,
        ),
        exists|ks: Seq<TriggerKey>| ambiguous_keys(*machine, ks),
{
    let ghost m = *machine;
    let ghost base = findings_view(findings@);
    duplicate_findings(machine, findings);
    initial_findings(machine, findings);
    parent_findings(machine, findings);
    children_findings(machine, findings);
    transition_findings(machine, findings);
    ambiguous_findings(machine, findings);
    assert(findings_view(findings@) =~= base + machine_findings(m));
}


// ------------------------------------------------------------ no findings, valid

proof fn lemma_dup_upto_empty(m: SimulationStateMachine, n: int)
    requires
        0 <= n <= m.states@.len(),
    ensures
        dup_upto(m, n).len() == 0 <==> forall|j: int| 0 <= j < n ==> !#[trigger] is_dup_at(m, j),
    decreases n,
{
    if n > 0 {
        lemma_dup_upto_empty(m, n - 1);
        if dup_upto(m, n).len() == 0 {
            assert forall|j: int| 0 <= j < n implies !#[trigger] is_dup_at(m, j) by {
                if j == n - 1 {
                    assert(dup_item(m, j).len() == 0);
                }
            }
        }
    }
}

proof fn lemma_parent_upto_empty(m: SimulationStateMachine, n: int)
    requires
        0 <= n <= m.states@.len(),
    ensures
        parent_upto(m, n).len() == 0 <==> forall|j: int|
            0 <= j < n ==> #[trigger] parent_item(m, j).len() == 0,
    decreases n,
{
    if n > 0 {
        lemma_parent_upto_empty(m, n - 1);
    }
}

proof fn lemma_children_upto_empty(m: SimulationStateMachine, n: int)
    requires
        0 <= n <= m.states@.len(),
    ensures
        children_upto(m, n).len() == 0 <==> forall|j: int|
            0 <= j < n ==> #[trigger] children_item(m, j).len() == 0,
    decreases n,
{
    if n > 0 {
        lemma_children_upto_empty(m, n - 1);
    }
}

proof fn lemma_transition_upto_empty(m: SimulationStateMachine, n: int)
    requires
        0 <= n <= m.transitions@.len(),
    ensures
        transition_upto(m, n).len() == 0 <==> forall|j: int|
            0 <= j < n ==> #[trigger] transition_item(m, j).len() == 0,
    decreases n,
{
    if n > 0 {
        lemma_transition_upto_empty(m, n - 1);
    }
}

/// A machine has no findings exactly when it is valid (given that its
/// ambiguous keys can be listed in order, which its validation shows).
proof fn lemma_machine_findings_empty(m: SimulationStateMachine)
    requires
        keys_listable(m),
    ensures
        machine_findings(m).len() == 0 <==> machine_valid(m),
{
    let ns = m.states@.len() as int;
    let nt = m.transitions@.len() as int;
    lemma_dup_upto_empty(m, ns);
    lemma_parent_upto_empty(m, ns);
    lemma_children_upto_empty(m, ns);
    lemma_transition_upto_empty(m, nt);
    let ks = ambiguous_key_seq(m);
    assert(ambiguous_keys(m, ks));
    assert(ambiguous_section(m).len() == ks.len());
    let no_shared = forall|j: int|
        0 <= j < nt ==> key_count(m, key_of(#[trigger] m.transitions@[j])) <= 1;
    if ks.len() > 0 {
        let k = ks[0];
        assert(key_count(m, k) > 1);
        lemma_key_count_witness(m, k, nt);
        let w = choose|w: int| 0 <= w < nt && key_of(#[trigger] m.transitions@[w]) == k;
        assert(!no_shared);
    } else if !no_shared {
        let w = choose|w: int|
            0 <= w < nt && !(key_count(m, key_of(#[trigger] m.transitions@[w])) <= 1);
        assert(ks.contains(key_of(m.transitions@[w])));
    }
    assert(ks.len() == 0 <==> no_shared);
    if machine_findings(m).len() == 0 {
        assert forall|j: int| 0 <= j < ns implies match (#[trigger] m.states@[j]).parent_state_id {
            Some(p) => has_state_id(m, p@),
            None => true,
        } by {
            assert(parent_item(m, j).len() == 0);
        }
        assert forall|j: int|
            0 <= j < ns && initial_children_count(m, (#[trigger] m.states@[j]).id@)
                > 1 implies m.states@[j].is_orthogonal by {
            assert(children_item(m, j).len() == 0);
        }
        assert forall|j: int| 0 <= j < nt implies has_state_id(
            m,
            (#[trigger] m.transitions@[j]).source@,
        ) && has_state_id(m, m.transitions@[j].target@) && !trigger_missing(
            m.transitions@[j],
        ) by {
            assert(transition_item(m, j).len() == 0);
        }
    }
    if machine_valid(m) {
        assert forall|j: int| 0 <= j < ns implies #[trigger] parent_item(m, j).len() == 0 by {
            assert(match m.states@[j].parent_state_id {
                Some(p) => has_state_id(m, p@),
                None => true,
            });
        }
        assert forall|j: int| 0 <= j < ns implies #[trigger] children_item(m, j).len() == 0 by {
            if initial_children_count(m, m.states@[j].id@) > 1 {
                assert(m.states@[j].is_orthogonal);
            }
        }
        assert forall|j: int| 0 <= j < nt implies #[trigger] transition_item(m, j).len() == 0 by {
            assert(has_state_id(m, m.transitions@[j].source@));
        }
    }
}

proof fn lemma_machines_findings_empty(ms: Seq<SimulationStateMachine>, n: int)
    requires
        0 <= n <= ms.len(),
        forall|j: int| 0 <= j < n ==> keys_listable(#[trigger] ms[j]),
    ensures
        machines_findings_upto(ms, n).len() == 0 <==> forall|j: int|
            0 <= j < n ==> machine_valid(#[trigger] ms[j]),
    decreases n,
{
    if n > 0 {
        lemma_machines_findings_empty(ms, n - 1);
        lemma_machine_findings_empty(ms[n - 1]);
    }
}

/// Validates `model` against the simulation profile: `Ok` when nothing is
/// wrong, else every finding, in order.
pub fn validate_simulation_model(model: &SimulationModel) -> (r: Result<(), SimulationProfileError>)
    ensures
        match r {
            Ok(()) => model_findings(*model).len() == 0,
            Err(e) => findings_view(e.findings@) == model_findings(*model) && e.findings@.len() > 0,
        },
        r is Ok <==> model_valid(*model),
{
    let ghost mo = *model;
    let mut findings: Vec<SimulationProfileFinding> = Vec::new();
    if model.machines.len() == 0 {
        push_finding(
            &mut findings,
            finding("model.no_machines", "Simulation model has no state machines.", None, None),
        );
    }
    let ghost head = findings_view(findings@);
    proof {
        assert(head == model_findings(mo).subrange(0, head.len() as int)) by {
            assert(findings_view(findings@) =~= (if mo.machines@.len() == 0 {
                seq![
                    fv(
                        "model.no_machines"@,
                        "Simulation model has no state machines."@,
                        None,
                        None,
                    ),
                ]
            } else {
                Seq::empty()
            }));
        }
    }
    let n = model.machines.len();
    let mut i: usize = 0;
    while i < n
        invariant
            n == mo.machines@.len(),
            i <= n,
            head == (if mo.machines@.len() == 0 {
                seq![
                    fv(
                        "model.no_machines"@,
                        "Simulation model has no state machines."@,
                        None,
                        None,
                    ),
                ]
            } else {
                Seq::<FindingView>::empty()
            }),
            findings_view(findings@) == head + machines_findings_upto(mo.machines@, i as int),
            mo == *model,
            forall|j: int| 0 <= j < i ==> keys_listable(#[trigger] mo.machines@[j]),
        decreases n - i,
    {
        validate_machine(&model.machines[i], &mut findings);
        proof {
            assert(head + machines_findings_upto(mo.machines@, i + 1) =~= head
                + machines_findings_upto(mo.machines@, i as int) + machine_findings(
                mo.machines@[i as int],
            ));
        }
        i = i + 1;
    }
    proof {
        lemma_machines_findings_empty(mo.machines@, n as int);
        assert(findings_view(findings@) == model_findings(mo));
    }
    if findings.len() == 0 {
        Ok(())
    } else {
        Err(SimulationProfileError { findings })
    }
}

} // verus!
