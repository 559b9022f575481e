//! Sequential execution of an activity: which model elements are its action
//! and control nodes, which flows join them, and the order in which the
//! nodes can run, each step running every node whose predecessors have all
//! run.
use vstd::prelude::*;

use crate::kerml::ast::strings_view;
use crate::simulation::{activity_reference, canonical, canonical_kind, opt_string, resolve_activity_reference, set_ids};
use crate::strmap::{StrMap, StrSet, has_key, keys_sorted, lemma_sorted_lookup_unique, lookup, str_lookup};
use crate::simulation::sanitized;
use crate::text::{concat2, concat3, contains_str, decimal, has_sub, owned, trim_str, trimmed, usize_to_string};

verus! {

// ------------------------------------------------------------ run status

/// How a capability run ended.
#[derive(Debug, Clone, Copy, PartialEq, Eq, Structural)]
pub enum CapabilityRunStatus {
    Passed,
    Failed,
    Inconclusive,
    Partial,
    NotApplicable,
    Error,
}

/// The label a run status is reported under.
pub open spec fn status_label(status: CapabilityRunStatus) -> Seq<char> {
    match status {
        CapabilityRunStatus::Passed => "passed"@,
        CapabilityRunStatus::Failed => "failed"@,
        CapabilityRunStatus::Inconclusive => "inconclusive"@,
        CapabilityRunStatus::Partial => "partial"@,
        CapabilityRunStatus::NotApplicable => "not_applicable"@,
        CapabilityRunStatus::Error => "error"@,
    }
}

/// The label of a run status.
pub fn capability_run_status_label(status: CapabilityRunStatus) -> (r: &'static str)
    ensures
        r@ == status_label(status),
{
    match status {
        CapabilityRunStatus::Passed => "passed",
        CapabilityRunStatus::Failed => "failed",
        CapabilityRunStatus::Inconclusive => "inconclusive",
        CapabilityRunStatus::Partial => "partial",
        CapabilityRunStatus::NotApplicable => "not_applicable",
        CapabilityRunStatus::Error => "error",
    }
}

/// The execution state an activity run with this status is reported in.
pub open spec fn execution_state(status: CapabilityRunStatus) -> Seq<char> {
    match status {
        CapabilityRunStatus::Passed => "completed"@,
        CapabilityRunStatus::Partial => "partial"@,
        CapabilityRunStatus::Failed | CapabilityRunStatus::Error => "failed"@,
        CapabilityRunStatus::Inconclusive => "inconclusive"@,
        CapabilityRunStatus::NotApplicable => "not_applicable"@,
    }
}

/// The execution state of an activity run with this status.
pub fn activity_execution_state(status: CapabilityRunStatus) -> (r: &'static str)
    ensures
        r@ == execution_state(status),
{
    match status {
        CapabilityRunStatus::Passed => "completed",
        CapabilityRunStatus::Partial => "partial",
        CapabilityRunStatus::Failed | CapabilityRunStatus::Error => "failed",
        CapabilityRunStatus::Inconclusive => "inconclusive",
        CapabilityRunStatus::NotApplicable => "not_applicable",
    }
}

/// The status of a run made of runs with statuses `s`: an error if any
/// erred, else a failure if any failed, else partial if any was partial,
/// else inconclusive if any was; otherwise passed when all passed (so also
/// when there were none), partial when only some did, and not applicable
/// when none did.
pub open spec fn aggregate(s: Seq<CapabilityRunStatus>) -> CapabilityRunStatus {
    if s.contains(CapabilityRunStatus::Error) {
        CapabilityRunStatus::Error
    } else if s.contains(CapabilityRunStatus::Failed) {
        CapabilityRunStatus::Failed
    } else if s.contains(CapabilityRunStatus::Partial) {
        CapabilityRunStatus::Partial
    } else if s.contains(CapabilityRunStatus::Inconclusive) {
        CapabilityRunStatus::Inconclusive
    } else if forall|i: int| 0 <= i < s.len() ==> s[i] == CapabilityRunStatus::Passed {
        CapabilityRunStatus::Passed
    } else if s.contains(CapabilityRunStatus::Passed) {
        CapabilityRunStatus::Partial
    } else {
        CapabilityRunStatus::NotApplicable
    }
}

/// Whether `s` holds `x`.
fn has_status(s: &[CapabilityRunStatus], x: CapabilityRunStatus) -> (r: bool)
    ensures
        r == s@.contains(x),
{
    let mut i: usize = 0;
    while i < s.len()
        invariant
            i <= s@.len(),
            forall|j: int| 0 <= j < i ==> s@[j] != x,
        decreases s@.len() - i,
    {
        if s[i] == x {
            return true;
        }
        i = i + 1;
    }
    false
}

/// The status of a run made of runs with the given statuses.
pub fn aggregate_capability_status(statuses: &[CapabilityRunStatus]) -> (r: CapabilityRunStatus)
    ensures
        r == aggregate(statuses@),
{
    if has_status(statuses, CapabilityRunStatus::Error) {
        CapabilityRunStatus::Error
    } else if has_status(statuses, CapabilityRunStatus::Failed) {
        CapabilityRunStatus::Failed
    } else if has_status(statuses, CapabilityRunStatus::Partial) {
        CapabilityRunStatus::Partial
    } else if has_status(statuses, CapabilityRunStatus::Inconclusive) {
        CapabilityRunStatus::Inconclusive
    } else {
        let mut all_passed = true;
        let mut i: usize = 0;
        while i < statuses.len()
            invariant
                i <= statuses@.len(),
                all_passed == forall|j: int| 0 <= j < i ==> statuses@[j] == CapabilityRunStatus::Passed,
            decreases statuses@.len() - i,
        {
            if statuses[i] != CapabilityRunStatus::Passed {
                all_passed = false;
            }
            i = i + 1;
        }
        if all_passed {
            CapabilityRunStatus::Passed
        } else if has_status(statuses, CapabilityRunStatus::Passed) {
            CapabilityRunStatus::Partial
        } else {
            CapabilityRunStatus::NotApplicable
        }
    }
}


// ------------------------------------------------------------ elements

/// A model element as the activity logic reads it: its id, its kind, and
/// those of its properties whose values are strings.
pub struct ActivityElement {
    pub element_id: String,
    pub kind: String,
    pub properties: StrMap<String>,
}

/// The first of `keys` under which `props` holds a value that is not blank,
/// with that value trimmed.
pub open spec fn property_any(props: Seq<(Seq<char>, String)>, keys: Seq<Seq<char>>) -> Option<Seq<char>>
    decreases keys.len(),
{
    if keys.len() == 0 {
        None
    } else {
        match str_lookup(props, keys[0]) {
            Some(v) => if trimmed(v).len() > 0 {
                Some(trimmed(v))
            } else {
                property_any(props, keys.skip(1))
            },
            None => property_any(props, keys.skip(1)),
        }
    }
}

/// The views of a list of keys.
pub open spec fn key_views(keys: Seq<&str>) -> Seq<Seq<char>> {
    keys.map_values(|k: &str| k@)
}

/// The trimmed value of the first of `keys` that `element` has and that is
/// not blank.
pub fn string_property_any(element: &ActivityElement, keys: &[&str]) -> (r: Option<String>)
    ensures
        opt_string(r) == property_any(element.properties@, key_views(keys@)),
{
    let ghost props = element.properties@;
    let mut i: usize = 0;
    assert(key_views(keys@).skip(0) =~= key_views(keys@));
    while i < keys.len()
        invariant
            i <= keys@.len(),
            props == element.properties@,
            property_any(props, key_views(keys@)) == property_any(props, key_views(keys@).skip(i as int)),
        decreases keys@.len() - i,
    {
        let ghost rest = key_views(keys@).skip(i as int);
        proof {
            assert(rest[0] == keys@[i as int]@);
            assert(rest.skip(1) =~= key_views(keys@).skip(i + 1));
        }
        match element.properties.get(keys[i]) {
            Some(v) => {
                let t = trim_str(v.as_str());
                if t.unicode_len() > 0 {
                    return Some(t);
                }
            },
            None => {},
        }
        i = i + 1;
    }
    None
}

/// The keys under which a flow names its source.
pub open spec fn source_keys() -> Seq<Seq<char>> {
    seq!["source"@, "source_id"@, "sourceId"@]
}

/// The keys under which a flow names its target.
pub open spec fn target_keys() -> Seq<Seq<char>> {
    seq!["target"@, "target_id"@, "targetId"@]
}

/// The keys under which an element names its owner.
pub open spec fn owner_keys() -> Seq<Seq<char>> {
    seq!["owner"@, "owning_type"@, "owning_definition"@, "owning_namespace"@, "owningNamespace"@]
}

/// The keys under which an element names itself.
pub open spec fn name_keys() -> Seq<Seq<char>> {
    seq!["declared_name"@, "name"@]
}

/// The source an element names.
pub open spec fn source_of(e: ActivityElement) -> Option<Seq<char>> {
    property_any(e.properties@, source_keys())
}

/// The target an element names.
pub open spec fn target_of(e: ActivityElement) -> Option<Seq<char>> {
    property_any(e.properties@, target_keys())
}

/// The owner an element names.
pub open spec fn owner_of(e: ActivityElement) -> Option<Seq<char>> {
    property_any(e.properties@, owner_keys())
}

/// The label of an element: its name, else its id.
pub open spec fn label_of(e: ActivityElement) -> Seq<char> {
    match property_any(e.properties@, name_keys()) {
        Some(n) => n,
        None => e.element_id@,
    }
}

fn source_key_list() -> (v: Vec<&'static str>)
    ensures
        key_views(v@) == source_keys(),
{
    let mut v: Vec<&'static str> = Vec::new();
    v.push("source");
    v.push("source_id");
    v.push("sourceId");
    assert(key_views(v@) =~= source_keys());
    v
}

fn target_key_list() -> (v: Vec<&'static str>)
    ensures
        key_views(v@) == target_keys(),
{
    let mut v: Vec<&'static str> = Vec::new();
    v.push("target");
    v.push("target_id");
    v.push("targetId");
    assert(key_views(v@) =~= target_keys());
    v
}

fn owner_key_list() -> (v: Vec<&'static str>)
    ensures
        key_views(v@) == owner_keys(),
{
    let mut v: Vec<&'static str> = Vec::new();
    v.push("owner");
    v.push("owning_type");
    v.push("owning_definition");
    v.push("owning_namespace");
    v.push("owningNamespace");
    assert(key_views(v@) =~= owner_keys());
    v
}

fn name_key_list() -> (v: Vec<&'static str>)
    ensures
        key_views(v@) == name_keys(),
{
    let mut v: Vec<&'static str> = Vec::new();
    v.push("declared_name");
    v.push("name");
    assert(key_views(v@) =~= name_keys());
    v
}

/// The source a flow element names.
fn flow_source(element: &ActivityElement) -> (r: Option<String>)
    ensures
        opt_string(r) == source_of(*element),
{
    let keys = source_key_list();
    string_property_any(element, keys.as_slice())
}

/// The target a flow element names.
fn flow_target(element: &ActivityElement) -> (r: Option<String>)
    ensures
        opt_string(r) == target_of(*element),
{
    let keys = target_key_list();
    string_property_any(element, keys.as_slice())
}

/// The label of an element: its declared name or name, else its id.
pub fn element_label(element: &ActivityElement) -> (r: String)
    ensures
        r@ == label_of(*element),
{
    let keys = name_key_list();
    match string_property_any(element, keys.as_slice()) {
        Some(n) => n,
        None => owned(element.element_id.as_str()),
    }
}

/// The owner an element names.
pub fn activity_owner_id(element: &ActivityElement) -> (r: Option<String>)
    ensures
        opt_string(r) == owner_of(*element),
{
    let keys = owner_key_list();
    string_property_any(element, keys.as_slice())
}

/// Whether an element names both a source and a target.
pub fn has_source_and_target(element: &ActivityElement) -> (r: bool)
    ensures
        r == (source_of(*element) is Some && target_of(*element) is Some),
{
    flow_source(element).is_some() && flow_target(element).is_some()
}

/// An element is a flow of an activity: a succession, or a flow that names
/// a source and a target.
pub open spec fn is_flow_element(e: ActivityElement) -> bool {
    has_sub(canonical(e.kind@), "succession"@) || (has_sub(canonical(e.kind@), "flow"@) && source_of(e) is Some
        && target_of(e) is Some)
}

/// An element is an action or control node of an activity, and no flow.
pub open spec fn is_execution_node(e: ActivityElement) -> bool {
    let k = canonical(e.kind@);
    (has_sub(k, "actionusage"@) || has_sub(k, "actiondefinition"@) || has_sub(k, "performactionusage"@)
        || has_sub(k, "forknode"@) || has_sub(k, "joinnode"@) || has_sub(k, "decisionnode"@) || has_sub(
        k,
        "mergenode"@,
    )) && !is_flow_element(e)
}

/// Whether an element is a flow of an activity.
pub fn is_activity_flow_element(element: &ActivityElement) -> (r: bool)
    ensures
        r == is_flow_element(*element),
{
    let kind = canonical_kind(element.kind.as_str());
    contains_str(kind.as_str(), "succession") || (contains_str(kind.as_str(), "flow")
        && has_source_and_target(element))
}

/// Whether an element is an action or control node of an activity.
pub fn is_activity_execution_node(element: &ActivityElement) -> (r: bool)
    ensures
        r == is_execution_node(*element),
{
    let kind = canonical_kind(element.kind.as_str());
    let k = kind.as_str();
    (contains_str(k, "actionusage") || contains_str(k, "actiondefinition") || contains_str(
        k,
        "performactionusage",
    ) || contains_str(k, "forknode") || contains_str(k, "joinnode") || contains_str(k, "decisionnode")
        || contains_str(k, "mergenode")) && !is_activity_flow_element(element)
}

/// The kinds of action and control nodes: an element whose canonical kind
/// names an action usage or definition, a perform action, or a fork, join,
/// decision or merge node, and that is no flow, is an execution node; a flow
/// never is; and an element whose kind names none of them is not one.
pub proof fn lemma_execution_node_kinds(e: ActivityElement)
    ensures
        !is_flow_element(e) && has_sub(canonical(e.kind@), "joinnode"@) ==> is_execution_node(e),
        !is_flow_element(e) && has_sub(canonical(e.kind@), "forknode"@) ==> is_execution_node(e),
        !is_flow_element(e) && has_sub(canonical(e.kind@), "decisionnode"@) ==> is_execution_node(e),
        !is_flow_element(e) && has_sub(canonical(e.kind@), "mergenode"@) ==> is_execution_node(e),
        !is_flow_element(e) && has_sub(canonical(e.kind@), "actionusage"@) ==> is_execution_node(e),
        !is_flow_element(e) && has_sub(canonical(e.kind@), "actiondefinition"@) ==> is_execution_node(e),
        !is_flow_element(e) && has_sub(canonical(e.kind@), "performactionusage"@) ==> is_execution_node(e),
        is_flow_element(e) ==> !is_execution_node(e),
        is_execution_node(e) ==> has_sub(canonical(e.kind@), "actionusage"@) || has_sub(
            canonical(e.kind@),
            "actiondefinition"@,
        ) || has_sub(canonical(e.kind@), "performactionusage"@) || has_sub(canonical(e.kind@), "forknode"@)
            || has_sub(canonical(e.kind@), "joinnode"@) || has_sub(canonical(e.kind@), "decisionnode"@) || has_sub(
            canonical(e.kind@),
            "mergenode"@,
        ),
{
}

/// A flow element touches the nodes when its source or target resolves to
/// one of them.
pub open spec fn touches(e: ActivityElement, ids: Seq<Seq<char>>) -> bool {
    match (source_of(e), target_of(e)) {
        (Some(s), Some(t)) => activity_reference(s, ids) is Some || activity_reference(t, ids) is Some,
        _ => false,
    }
}

/// Whether a flow element's source or target resolves to one of the nodes.
pub fn flow_touches_nodes(element: &ActivityElement, node_ids: &StrSet) -> (r: bool)
    ensures
        r == touches(*element, set_ids(node_ids@)),
{
    let source = match flow_source(element) {
        Some(s) => s,
        None => return false,
    };
    let target = match flow_target(element) {
        Some(t) => t,
        None => return false,
    };
    resolve_activity_reference(source.as_str(), node_ids).is_some() || resolve_activity_reference(
        target.as_str(),
        node_ids,
    ).is_some()
}


// ------------------------------------------------------------ nodes

/// An element is an action or control node owned by activity `b`.
pub open spec fn owned_node(e: ActivityElement, b: Seq<char>) -> bool {
    is_execution_node(e) && owner_of(e) == Some(b)
}

/// Some of the first `n` elements is a node owned by activity `b`.
pub open spec fn some_owned_node(es: Seq<ActivityElement>, b: Seq<char>, n: int) -> bool
    decreases n,
{
    n > 0 && (owned_node(es[n - 1], b) || some_owned_node(es, b, n - 1))
}

/// The last of the first `n` elements that is a node of activity `b` with
/// id `k`.
pub open spec fn last_owned_node(es: Seq<ActivityElement>, b: Seq<char>, k: Seq<char>, n: int) -> Option<int>
    decreases n,
{
    if n <= 0 {
        None
    } else if owned_node(es[n - 1], b) && es[n - 1].element_id@ == k {
        Some(n - 1)
    } else {
        last_owned_node(es, b, k, n - 1)
    }
}

/// The first of the first `n` elements with id `k`.
pub open spec fn first_with_id(es: Seq<ActivityElement>, k: Seq<char>, n: int) -> Option<int>
    decreases n,
{
    if n <= 0 {
        None
    } else {
        match first_with_id(es, k, n - 1) {
            Some(i) => Some(i),
            None => if es[n - 1].element_id@ == k {
                Some(n - 1)
            } else {
                None
            },
        }
    }
}

/// The position of the node of activity `b` with id `k`: among the nodes
/// the activity owns, the last with that id; when it owns none, the
/// activity element itself if it is an action or control node.
pub open spec fn execution_node_at(es: Seq<ActivityElement>, b: Seq<char>, k: Seq<char>) -> Option<int> {
    if some_owned_node(es, b, es.len() as int) {
        last_owned_node(es, b, k, es.len() as int)
    } else {
        match first_with_id(es, b, es.len() as int) {
            Some(i) => if k == b && is_execution_node(es[i]) {
                Some(i)
            } else {
                None
            },
            None => None,
        }
    }
}

/// The position a map of positions gives key `k`.
pub open spec fn position_lookup(s: Seq<(Seq<char>, usize)>, k: Seq<char>) -> Option<int> {
    match lookup(s, k) {
        Some(i) => Some(i as int),
        None => None,
    }
}

proof fn lemma_last_owned_bounds(es: Seq<ActivityElement>, b: Seq<char>, k: Seq<char>, n: int)
    ensures
        last_owned_node(es, b, k, n) matches Some(i) ==> 0 <= i < n && owned_node(es[i], b)
            && es[i].element_id@ == k,
    decreases n,
{
    if n > 0 {
        lemma_last_owned_bounds(es, b, k, n - 1);
    }
}

proof fn lemma_first_with_id_bounds(es: Seq<ActivityElement>, k: Seq<char>, n: int)
    ensures
        first_with_id(es, k, n) matches Some(i) ==> 0 <= i < n && es[i].element_id@ == k,
        first_with_id(es, k, n) is None ==> forall|j: int| 0 <= j < n ==> es[j].element_id@ != k,
    decreases n,
{
    if n > 0 {
        lemma_first_with_id_bounds(es, k, n - 1);
    }
}

/// The action and control nodes of activity `behavior_id`, by id, each
/// with its position in `elements`.
pub fn activity_execution_nodes(elements: &[ActivityElement], behavior_id: &str) -> (r: StrMap<usize>)
    ensures
        forall|k: Seq<char>| #[trigger]
            position_lookup(r@, k) == execution_node_at(elements@, behavior_id@, k),
        forall|k: Seq<char>| #[trigger]
            lookup(r@, k) is Some ==> lookup(r@, k)->Some_0 < elements@.len(),
{
    let ghost es = elements@;
    let ghost b = behavior_id@;
    let mut nodes: StrMap<usize> = StrMap::new();
    let mut any = false;
    let mut i: usize = 0;
    while i < elements.len()
        invariant
            es == elements@,
            b == behavior_id@,
            i <= es.len(),
            any == some_owned_node(es, b, i as int),
            forall|k: Seq<char>| #[trigger]
                position_lookup(nodes@, k) == last_owned_node(es, b, k, i as int),
            any ==> nodes@.len() > 0,
        decreases es.len() - i,
    {
        let element = &elements[i];
        let ghost n0 = nodes@;
        let mut owned_here = false;
        if is_activity_execution_node(element) {
            match activity_owner_id(element) {
                Some(o) => {
                    if crate::text::str_eq(o.as_str(), behavior_id) {
                        owned_here = true;
                    }
                },
                None => {},
            }
        }
        if owned_here {
            nodes.insert(owned(element.element_id.as_str()), i);
            any = true;
        }
        i = i + 1;
        proof {
            assert forall|k: Seq<char>| #[trigger]
                position_lookup(nodes@, k) == last_owned_node(es, b, k, i as int) by {
                assert(position_lookup(n0, k) == last_owned_node(es, b, k, i - 1));
            }
            if any {
                if owned_here {
                    let k = es[i - 1].element_id@;
                    assert(position_lookup(nodes@, k) == last_owned_node(es, b, k, i as int));
                    assert(has_key(nodes@, k));
                }
            }
        }
    }
    if !any {
        let mut j: usize = 0;
        while j < elements.len()
            invariant
                es == elements@,
                b == behavior_id@,
                j <= es.len(),
                first_with_id(es, b, j as int) is None,
                !some_owned_node(es, b, es.len() as int),
            decreases es.len() - j,
        {
            if crate::text::str_eq(elements[j].element_id.as_str(), behavior_id) {
                let ghost jj = j as int;
                proof {
                    assert(first_with_id(es, b, jj + 1) == Some(jj));
                    lemma_first_with_id_first(es, b, jj, es.len() as int);
                }
                let mut fallback: StrMap<usize> = StrMap::new();
                let is_node = is_activity_execution_node(&elements[j]);
                if is_node {
                    fallback.insert(owned(behavior_id), j);
                }
                proof {
                    assert forall|k: Seq<char>| #[trigger]
                        position_lookup(fallback@, k) == execution_node_at(es, b, k) by {
                        if is_node {
                            assert(lookup(fallback@, k) == if k == b {
                                Some(j)
                            } else {
                                lookup(Seq::<(Seq<char>, usize)>::empty(), k)
                            });
                        }
                    }
                    assert forall|k: Seq<char>| #[trigger]
                        lookup(fallback@, k) is Some implies lookup(fallback@, k)->Some_0 < elements@.len() by {
                        lemma_first_with_id_bounds(es, b, es.len() as int);
                        assert(position_lookup(fallback@, k) == execution_node_at(es, b, k));
                    }
                }
                return fallback;
            }
            j = j + 1;
        }
        proof {
            assert forall|k: Seq<char>| #[trigger]
                position_lookup(nodes@, k) == execution_node_at(es, b, k) by {
                lemma_last_owned_none(es, b, k, es.len() as int);
                lemma_first_with_id_bounds(es, b, es.len() as int);
            }
            assert forall|k: Seq<char>| #[trigger]
                lookup(nodes@, k) is Some implies lookup(nodes@, k)->Some_0 < elements@.len() by {
                lemma_last_owned_none(es, b, k, es.len() as int);
                assert(position_lookup(nodes@, k) == last_owned_node(es, b, k, es.len() as int));
            }
        }
        return nodes;
    }
    proof {
        assert forall|k: Seq<char>| #[trigger]
            lookup(nodes@, k) is Some implies lookup(nodes@, k)->Some_0 < elements@.len() by {
            lemma_last_owned_bounds(es, b, k, es.len() as int);
            assert(position_lookup(nodes@, k) == last_owned_node(es, b, k, es.len() as int));
        }
    }
    nodes
}

proof fn lemma_first_with_id_first(es: Seq<ActivityElement>, k: Seq<char>, j: int, n: int)
    requires
        0 <= j < n,
        first_with_id(es, k, j) is None,
        es[j].element_id@ == k,
    ensures
        first_with_id(es, k, n) == Some(j),
    decreases n,
{
    if n > j + 1 {
        lemma_first_with_id_first(es, k, j, n - 1);
    }
}

proof fn lemma_last_owned_none(es: Seq<ActivityElement>, b: Seq<char>, k: Seq<char>, n: int)
    requires
        !some_owned_node(es, b, n),
    ensures
        last_owned_node(es, b, k, n) is None,
    decreases n,
{
    if n > 0 {
        lemma_last_owned_none(es, b, k, n - 1);
    }
}


// ------------------------------------------------------------ flows

/// A flow between two nodes of an activity.
pub struct ActivityFlow {
    pub id: String,
    pub source: String,
    pub target: String,
}

impl View for ActivityFlow {
    type V = (Seq<char>, Seq<char>, Seq<char>);

    open spec fn view(&self) -> (Seq<char>, Seq<char>, Seq<char>) {
        (self.id@, self.source@, self.target@)
    }
}

/// A warning about an activity's execution: its code, its message, and the
/// id of the activity it concerns.
pub struct ActivityIssue {
    pub code: String,
    pub message: String,
    pub subject: String,
}

impl View for ActivityIssue {
    type V = (Seq<char>, Seq<char>, Seq<char>);

    open spec fn view(&self) -> (Seq<char>, Seq<char>, Seq<char>) {
        (self.code@, self.message@, self.subject@)
    }
}

/// The views of a list of flows.
pub open spec fn flows_view(v: Seq<ActivityFlow>) -> Seq<(Seq<char>, Seq<char>, Seq<char>)> {
    v.map_values(|f: ActivityFlow| f@)
}

/// The views of a list of issues.
pub open spec fn issues_view(v: Seq<ActivityIssue>) -> Seq<(Seq<char>, Seq<char>, Seq<char>)> {
    v.map_values(|d: ActivityIssue| d@)
}

/// The issue raised for flow `id`, whose source `source` names no node.
pub open spec fn unresolved_source_issue(b: Seq<char>, id: Seq<char>, source: Seq<char>) -> (Seq<char>, Seq<char>, Seq<char>) {
    (
        "analysis.dynamic.activity_execution.unresolved_flow_source"@,
        "activity flow `"@ + id + "` references unknown source `"@ + source + "`"@,
        b,
    )
}

/// The issue raised for flow `id`, whose target `target` names no node.
pub open spec fn unresolved_target_issue(b: Seq<char>, id: Seq<char>, target: Seq<char>) -> (Seq<char>, Seq<char>, Seq<char>) {
    (
        "analysis.dynamic.activity_execution.unresolved_flow_target"@,
        "activity flow `"@ + id + "` references unknown target `"@ + target + "`"@,
        b,
    )
}

/// An element is looked at as a flow of activity `b` with nodes `ids`: it
/// is a flow, and either `b` owns it or it touches the nodes.
pub open spec fn flow_candidate(e: ActivityElement, b: Seq<char>, ids: Seq<Seq<char>>) -> bool {
    is_flow_element(e) && (owner_of(e) == Some(b) || touches(e, ids))
}

/// The flows found among the first `n` elements, in element order, and the
/// issues raised for those whose ends name no node.
pub open spec fn flows_upto(es: Seq<ActivityElement>, b: Seq<char>, ids: Seq<Seq<char>>, n: int) -> (
    Seq<(Seq<char>, Seq<char>, Seq<char>)>,
    Seq<(Seq<char>, Seq<char>, Seq<char>)>,
)
    decreases n,
{
    if n <= 0 {
        (Seq::empty(), Seq::empty())
    } else {
        let (f, d) = flows_upto(es, b, ids, n - 1);
        let e = es[n - 1];
        if !flow_candidate(e, b, ids) {
            (f, d)
        } else {
            match (source_of(e), target_of(e)) {
                (Some(s), Some(t)) => match activity_reference(s, ids) {
                    None => (f, d.push(unresolved_source_issue(b, e.element_id@, s))),
                    Some(si) => match activity_reference(t, ids) {
                        None => (f, d.push(unresolved_target_issue(b, e.element_id@, t))),
                        Some(ti) => (f.push((e.element_id@, si, ti)), d),
                    },
                },
                _ => (f, d),
            }
        }
    }
}

/// Where `x` goes in `t` when kept in id order after the flows with ids not
/// above its own: before the first flow from `j` on whose id is above.
pub open spec fn insert_position(t: Seq<(Seq<char>, Seq<char>, Seq<char>)>, x: (Seq<char>, Seq<char>, Seq<char>), j: int) -> int
    decreases t.len() - j,
{
    if j >= t.len() || j < 0 {
        t.len() as int
    } else if crate::text_order::seq_lt(x.0, t[j].0) {
        j
    } else {
        insert_position(t, x, j + 1)
    }
}

/// The flows `s` ordered by id, those with equal ids in their order in `s`.
pub open spec fn sorted_by_id(s: Seq<(Seq<char>, Seq<char>, Seq<char>)>) -> Seq<(Seq<char>, Seq<char>, Seq<char>)>
    decreases s.len(),
{
    if s.len() == 0 {
        s
    } else {
        let t = sorted_by_id(s.drop_last());
        t.insert(insert_position(t, s.last(), 0), s.last())
    }
}

proof fn lemma_insert_position_bounds(t: Seq<(Seq<char>, Seq<char>, Seq<char>)>, x: (Seq<char>, Seq<char>, Seq<char>), j: int)
    requires
        0 <= j <= t.len(),
    ensures
        j <= insert_position(t, x, j) <= t.len(),
    decreases t.len() - j,
{
    if j < t.len() && !crate::text_order::seq_lt(x.0, t[j].0) {
        lemma_insert_position_bounds(t, x, j + 1);
    }
}

/// Inserts `x` into `t` at its place in id order.
fn insert_by_id(t: &mut Vec<ActivityFlow>, x: ActivityFlow)
    ensures
        flows_view(final(t)@) == flows_view(old(t)@).insert(
            insert_position(flows_view(old(t)@), x@, 0),
            x@,
        ),
{
    let ghost tv = flows_view(t@);
    let mut j: usize = 0;
    while j < t.len() && !crate::text_order::str_lt(x.id.as_str(), t[j].id.as_str())
        invariant
            tv == flows_view(t@),
            j <= t@.len(),
            insert_position(tv, x@, 0) == insert_position(tv, x@, j as int),
        decreases t@.len() - j,
    {
        j = j + 1;
    }
    let ghost xv = x@;
    t.insert(j, x);
    proof {
        assert(flows_view(t@) =~= tv.insert(j as int, xv));
    }
}

/// The flows of activity `behavior_id` whose ends resolve to `node_ids`,
/// ordered by id; an issue is added to `diagnostics` for each flow with an
/// end that names no node.
pub fn activity_flows(
    elements: &[ActivityElement],
    behavior_id: &str,
    node_ids: &StrSet,
    diagnostics: &mut Vec<ActivityIssue>,
) -> (r: Vec<ActivityFlow>)
    ensures
        flows_view(r@) == sorted_by_id(flows_upto(elements@, behavior_id@, set_ids(node_ids@), elements@.len() as int).0),
        issues_view(final(diagnostics)@) == issues_view(old(diagnostics)@) + flows_upto(
            elements@,
            behavior_id@,
            set_ids(node_ids@),
            elements@.len() as int,
        ).1,
{
    let ghost es = elements@;
    let ghost b = behavior_id@;
    let ghost ids = set_ids(node_ids@);
    let ghost d0 = issues_view(diagnostics@);
    let mut flows: Vec<ActivityFlow> = Vec::new();
    let mut i: usize = 0;
    while i < elements.len()
        invariant
            es == elements@,
            b == behavior_id@,
            ids == set_ids(node_ids@),
            i <= es.len(),
            flows_view(flows@) == sorted_by_id(flows_upto(es, b, ids, i as int).0),
            issues_view(diagnostics@) == d0 + flows_upto(es, b, ids, i as int).1,
        decreases es.len() - i,
    {
        let element = &elements[i];
        let ghost fd = flows_upto(es, b, ids, i as int);
        let ghost dv = issues_view(diagnostics@);
        let mut candidate = false;
        if is_activity_flow_element(element) {
            let owner_matches = match activity_owner_id(element) {
                Some(o) => crate::text::str_eq(o.as_str(), behavior_id),
                None => false,
            };
            candidate = owner_matches || flow_touches_nodes(element, node_ids);
        }
        if candidate {
            match (flow_source(element), flow_target(element)) {
                (Some(source), Some(target)) => {
                    match resolve_activity_reference(source.as_str(), node_ids) {
                        None => {
                            let message = concat3(
                                concat3("activity flow `", element.element_id.as_str(), "` references unknown source `").as_str(),
                                source.as_str(),
                                "`",
                            );
                            let issue = ActivityIssue {
                                code: owned("analysis.dynamic.activity_execution.unresolved_flow_source"),
                                message,
                                subject: owned(behavior_id),
                            };
                            diagnostics.push(issue);
                            proof {
                                assert(issues_view(diagnostics@) =~= dv.push(issue@));
                            }
                        },
                        Some(source_id) => {
                            match resolve_activity_reference(target.as_str(), node_ids) {
                                None => {
                                    let message = concat3(
                                        concat3("activity flow `", element.element_id.as_str(), "` references unknown target `").as_str(),
                                        target.as_str(),
                                        "`",
                                    );
                                    let issue = ActivityIssue {
                                        code: owned("analysis.dynamic.activity_execution.unresolved_flow_target"),
                                        message,
                                        subject: owned(behavior_id),
                                    };
                                    diagnostics.push(issue);
                                    proof {
                                        assert(issues_view(diagnostics@) =~= dv.push(issue@));
                                    }
                                },
                                Some(target_id) => {
                                    let flow = ActivityFlow {
                                        id: owned(element.element_id.as_str()),
                                        source: source_id,
                                        target: target_id,
                                    };
                                    proof {
                                        let f1 = fd.0.push(flow@);
                                        assert(f1.drop_last() =~= fd.0);
                                    }
                                    insert_by_id(&mut flows, flow);
                                },
                            }
                        },
                    }
                },
                _ => {},
            }
        }
        i = i + 1;
        proof {
            assert(es[i - 1] == *element);
        }
    }
    flows
}


// ------------------------------------------------------------ schedule

/// Node `n` can run once `done` have: it has not run, and every flow into
/// it comes from a node that has.
pub open spec fn ready(flows: Seq<(Seq<char>, Seq<char>, Seq<char>)>, done: Set<Seq<char>>, n: Seq<char>) -> bool {
    !done.contains(n) && forall|i: int| 0 <= i < flows.len() && (#[trigger] flows[i]).2 == n ==> done.contains(flows[i].1)
}

/// The first `t` nodes that can run once `done` have, in order.
pub open spec fn enabled_upto(
    ids: Seq<Seq<char>>,
    flows: Seq<(Seq<char>, Seq<char>, Seq<char>)>,
    done: Set<Seq<char>>,
    t: int,
) -> Seq<Seq<char>>
    decreases t,
{
    if t <= 0 {
        Seq::empty()
    } else {
        let e = enabled_upto(ids, flows, done, t - 1);
        if ready(flows, done, ids[t - 1]) {
            e.push(ids[t - 1])
        } else {
            e
        }
    }
}

/// The nodes that can run once `done` have, in order.
pub open spec fn enabled(
    ids: Seq<Seq<char>>,
    flows: Seq<(Seq<char>, Seq<char>, Seq<char>)>,
    done: Set<Seq<char>>,
) -> Seq<Seq<char>> {
    enabled_upto(ids, flows, done, ids.len() as int)
}

/// The steps that run after `done` have, each running every node that can,
/// for at most `fuel` steps, with the nodes that have run at the end.
pub open spec fn run_steps(
    ids: Seq<Seq<char>>,
    flows: Seq<(Seq<char>, Seq<char>, Seq<char>)>,
    done: Set<Seq<char>>,
    fuel: nat,
) -> (Seq<Seq<Seq<char>>>, Set<Seq<char>>)
    decreases fuel,
{
    let e = enabled(ids, flows, done);
    if fuel == 0 || e.len() == 0 {
        (Seq::empty(), done)
    } else {
        let next = run_steps(ids, flows, done.union(e.to_set()), (fuel - 1) as nat);
        (seq![e] + next.0, next.1)
    }
}

/// The first `t` nodes that are not in `done`, in order.
pub open spec fn pending_upto(ids: Seq<Seq<char>>, done: Set<Seq<char>>, t: int) -> Seq<Seq<char>>
    decreases t,
{
    if t <= 0 {
        Seq::empty()
    } else if done.contains(ids[t - 1]) {
        pending_upto(ids, done, t - 1)
    } else {
        pending_upto(ids, done, t - 1).push(ids[t - 1])
    }
}

/// The steps in which the nodes `ids` run, joined by `flows`, and the
/// nodes that never can: every step runs, in id order, all the nodes whose
/// predecessors have run in earlier steps, until no node is left that can.
pub open spec fn activity_schedule(ids: Seq<Seq<char>>, flows: Seq<(Seq<char>, Seq<char>, Seq<char>)>) -> (
    Seq<Seq<Seq<char>>>,
    Seq<Seq<char>>,
) {
    let (steps, fin) = run_steps(ids, flows, Set::empty(), ids.len());
    (steps, pending_upto(ids, fin, ids.len() as int))
}

/// The views of a list of steps.
pub open spec fn steps_view(v: Seq<Vec<String>>) -> Seq<Seq<Seq<char>>> {
    v.map_values(|s: Vec<String>| strings_view(s@))
}

proof fn lemma_pending_len(ids: Seq<Seq<char>>, done: Set<Seq<char>>, t: int)
    requires
        0 <= t <= ids.len(),
    ensures
        pending_upto(ids, done, t).len() <= t,
    decreases t,
{
    if t > 0 {
        lemma_pending_len(ids, done, t - 1);
    }
}

proof fn lemma_pending_shrinks(ids: Seq<Seq<char>>, d1: Set<Seq<char>>, d2: Set<Seq<char>>, t: int, j: int)
    requires
        0 <= t <= ids.len(),
        forall|k: Seq<char>| d1.contains(k) ==> d2.contains(k),
    ensures
        pending_upto(ids, d2, t).len() <= pending_upto(ids, d1, t).len(),
        0 <= j < t && !d1.contains(ids[j]) && d2.contains(ids[j]) ==> pending_upto(ids, d2, t).len()
            < pending_upto(ids, d1, t).len(),
    decreases t,
{
    if t > 0 {
        lemma_pending_shrinks(ids, d1, d2, t - 1, j);
    }
}

proof fn lemma_enabled_members(
    ids: Seq<Seq<char>>,
    flows: Seq<(Seq<char>, Seq<char>, Seq<char>)>,
    done: Set<Seq<char>>,
    t: int,
)
    requires
        0 <= t <= ids.len(),
    ensures
        forall|m: int| 0 <= m < enabled_upto(ids, flows, done, t).len() ==> ids.take(t).contains(
            #[trigger] enabled_upto(ids, flows, done, t)[m],
        ) && ready(flows, done, enabled_upto(ids, flows, done, t)[m]),
    decreases t,
{
    if t > 0 {
        lemma_enabled_members(ids, flows, done, t - 1);
        let e = enabled_upto(ids, flows, done, t - 1);
        assert forall|m: int| 0 <= m < enabled_upto(ids, flows, done, t).len() implies ids.take(t).contains(
            #[trigger] enabled_upto(ids, flows, done, t)[m],
        ) && ready(flows, done, enabled_upto(ids, flows, done, t)[m]) by {
            let x = enabled_upto(ids, flows, done, t)[m];
            if m < e.len() {
                assert(x == e[m]);
                assert(ids.take(t - 1).contains(x));
                let q = choose|q: int| 0 <= q < t - 1 && #[trigger] ids.take(t - 1)[q] == x;
                assert(ids.take(t)[q] == x);
            } else {
                assert(ids.take(t)[t - 1] == x);
            }
        }
    }
}

/// Whether every flow into `n` comes from a node in `completed`, and `n`
/// is not there itself.
fn is_ready(
    flows: &[ActivityFlow],
    completed: &StrSet,
    n: &str,
    Ghost(done): Ghost<Set<Seq<char>>>,
) -> (r: bool)
    requires
        forall|k: Seq<char>| #[trigger] has_key(completed@, k) == done.contains(k),
    ensures
        r == ready(flows_view(flows@), done, n@),
{
    let ghost fl = flows_view(flows@);
    if completed.contains_key(n) {
        return false;
    }
    let mut i: usize = 0;
    while i < flows.len()
        invariant
            fl == flows_view(flows@),
            i <= flows@.len(),
            forall|k: Seq<char>| #[trigger] has_key(completed@, k) == done.contains(k),
            forall|m: int| 0 <= m < i && (#[trigger] fl[m]).2 == n@ ==> done.contains(fl[m].1),
        decreases flows@.len() - i,
    {
        if crate::text::str_eq(flows[i].target.as_str(), n) && !completed.contains_key(flows[i].source.as_str()) {
            proof {
                assert(fl[i as int].2 == n@ && !done.contains(fl[i as int].1));
            }
            return false;
        }
        i = i + 1;
    }
    true
}

/// The nodes that can run once those in `completed` have, in id order.
fn enabled_nodes(
    node_ids: &StrSet,
    flows: &[ActivityFlow],
    completed: &StrSet,
    Ghost(done): Ghost<Set<Seq<char>>>,
) -> (r: Vec<String>)
    requires
        forall|k: Seq<char>| #[trigger] has_key(completed@, k) == done.contains(k),
    ensures
        strings_view(r@) == enabled(set_ids(node_ids@), flows_view(flows@), done),
{
    let ghost ids = set_ids(node_ids@);
    let mut r: Vec<String> = Vec::new();
    let n = node_ids.len();
    let mut t: usize = 0;
    while t < n
        invariant
            ids == set_ids(node_ids@),
            n == node_ids@.len(),
            t <= n,
            forall|k: Seq<char>| #[trigger] has_key(completed@, k) == done.contains(k),
            strings_view(r@) == enabled_upto(ids, flows_view(flows@), done, t as int),
        decreases n - t,
    {
        let id = node_ids.key_at(t);
        if is_ready(flows, completed, id.as_str(), Ghost(done)) {
            let ghost r0 = strings_view(r@);
            r.push(owned(id.as_str()));
            proof {
                assert(strings_view(r@) =~= r0.push(ids[t as int]));
            }
        }
        t = t + 1;
    }
    r
}

/// The steps in which the nodes `node_ids` of an activity run, given the
/// flows that join them, and the nodes that never can run (on a cycle, or
/// after a node that never runs).
pub fn schedule_activity(node_ids: &StrSet, flows: &[ActivityFlow]) -> (r: (Vec<Vec<String>>, Vec<String>))
    ensures
        steps_view(r.0@) == activity_schedule(set_ids(node_ids@), flows_view(flows@)).0,
        strings_view(r.1@) == activity_schedule(set_ids(node_ids@), flows_view(flows@)).1,
{
    let ghost ids = set_ids(node_ids@);
    let ghost fl = flows_view(flows@);
    let ghost start = run_steps(ids, fl, Set::empty(), ids.len());
    let mut completed: StrSet = StrMap::new();
    let ghost mut done: Set<Seq<char>> = Set::empty();
    let ghost mut fuel: nat = ids.len();
    let mut steps: Vec<Vec<String>> = Vec::new();
    proof {
        lemma_pending_len(ids, done, ids.len() as int);
        assert(steps_view(steps@) + run_steps(ids, fl, done, fuel).0 =~= start.0);
    }
    loop
        invariant
            ids == set_ids(node_ids@),
            fl == flows_view(flows@),
            forall|k: Seq<char>| #[trigger] has_key(completed@, k) == done.contains(k),
            pending_upto(ids, done, ids.len() as int).len() <= fuel,
            steps_view(steps@) + run_steps(ids, fl, done, fuel).0 == start.0,
            run_steps(ids, fl, done, fuel).1 == start.1,
        ensures
            forall|k: Seq<char>| #[trigger] has_key(completed@, k) == done.contains(k),
            steps_view(steps@) == start.0,
            done == start.1,
        decreases fuel,
    {
        let enabled_now = enabled_nodes(node_ids, flows, &completed, Ghost(done));
        let ghost e = strings_view(enabled_now@);
        if enabled_now.len() == 0 {
            proof {
                assert(steps_view(steps@) + run_steps(ids, fl, done, fuel).0 =~= steps_view(steps@));
            }
            break;
        }
        proof {
            lemma_enabled_members(ids, fl, done, ids.len() as int);
            assert(ids.take(ids.len() as int).contains(e[0]));
            let j = choose|j: int| 0 <= j < ids.len() && #[trigger] ids.take(ids.len() as int)[j] == e[0];
            assert(ids[j] == e[0]);
            assert(e.to_set().contains(e[0]));
            lemma_pending_shrinks(ids, done, done.union(e.to_set()), ids.len() as int, j);
        }
        let ghost d1 = done.union(e.to_set());
        let mut m: usize = 0;
        while m < enabled_now.len()
            invariant
                e == strings_view(enabled_now@),
                m <= e.len(),
                forall|k: Seq<char>| #[trigger] has_key(completed@, k) == (done.contains(k) || e.take(m as int).contains(k)),
            decreases e.len() - m,
        {
            let ghost c0 = completed@;
            completed.insert(owned(enabled_now[m].as_str()), ());
            proof {
                assert forall|k: Seq<char>| #[trigger] has_key(completed@, k) == (done.contains(k) || e.take(m + 1).contains(k)) by {
                    assert(lookup(completed@, k) == if k == e[m as int] {
                        Some(())
                    } else {
                        lookup(c0, k)
                    });
                    assert(has_key(c0, k) == (done.contains(k) || e.take(m as int).contains(k)));
                    if e.take(m + 1).contains(k) && k != e[m as int] {
                        let q = choose|q: int| 0 <= q < m + 1 && #[trigger] e.take(m + 1)[q] == k;
                        assert(e.take(m as int)[q] == k);
                    }
                    if e.take(m as int).contains(k) {
                        let q = choose|q: int| 0 <= q < m && #[trigger] e.take(m as int)[q] == k;
                        assert(e.take(m + 1)[q] == k);
                    }
                    if k == e[m as int] {
                        assert(e.take(m + 1)[m as int] == k);
                    }
                }
            }
            m = m + 1;
        }
        proof {
            assert(e.take(e.len() as int) =~= e);
            assert forall|k: Seq<char>| #[trigger] has_key(completed@, k) == d1.contains(k) by {}
            assert(steps_view(steps@.push(enabled_now)) =~= steps_view(steps@).push(e));
            assert(run_steps(ids, fl, done, fuel).0 == seq![e] + run_steps(ids, fl, d1, (fuel - 1) as nat).0);
            assert(steps_view(steps@).push(e) + run_steps(ids, fl, d1, (fuel - 1) as nat).0 =~= steps_view(steps@)
                + run_steps(ids, fl, done, fuel).0);
        }
        steps.push(enabled_now);
        proof {
            done = d1;
            fuel = (fuel - 1) as nat;
        }
    }
    let mut blocked: Vec<String> = Vec::new();
    let n = node_ids.len();
    let mut t: usize = 0;
    while t < n
        invariant
            ids == set_ids(node_ids@),
            n == node_ids@.len(),
            t <= n,
            forall|k: Seq<char>| #[trigger] has_key(completed@, k) == done.contains(k),
            strings_view(blocked@) == pending_upto(ids, done, t as int),
        decreases n - t,
    {
        let id = node_ids.key_at(t);
        if !completed.contains_key(id.as_str()) {
            let ghost b0 = strings_view(blocked@);
            blocked.push(owned(id.as_str()));
            proof {
                assert(strings_view(blocked@) =~= b0.push(ids[t as int]));
            }
        }
        t = t + 1;
    }
    (steps, blocked)
}


// ------------------------------------------------------------ execution

/// A node as an activity run reports it: its id, its kind and its label.
pub struct ActivityNodeInfo {
    pub element_id: String,
    pub kind: String,
    pub label: String,
}

impl View for ActivityNodeInfo {
    type V = (Seq<char>, Seq<char>, Seq<char>);

    open spec fn view(&self) -> (Seq<char>, Seq<char>, Seq<char>) {
        (self.element_id@, self.kind@, self.label@)
    }
}

/// What running the activity of one behavior binding gives: its status and
/// execution state, how many nodes and flows it has, the nodes that ran in
/// each step, its flows, the nodes that never ran, and the warnings raised.
pub struct ActivityBindingExecution {
    pub status: CapabilityRunStatus,
    pub execution_state: String,
    pub node_count: usize,
    pub edge_count: usize,
    pub steps: Vec<Vec<ActivityNodeInfo>>,
    pub flows: Vec<ActivityFlow>,
    pub blocked_nodes: Vec<ActivityNodeInfo>,
    pub diagnostics: Vec<ActivityIssue>,
    pub limitations: Vec<String>,
}

/// The views of a list of node reports.
pub open spec fn infos_view(v: Seq<ActivityNodeInfo>) -> Seq<(Seq<char>, Seq<char>, Seq<char>)> {
    v.map_values(|n: ActivityNodeInfo| n@)
}

/// The views of the node reports of each step.
pub open spec fn step_infos_view(v: Seq<Vec<ActivityNodeInfo>>) -> Seq<Seq<(Seq<char>, Seq<char>, Seq<char>)>> {
    v.map_values(|s: Vec<ActivityNodeInfo>| infos_view(s@))
}

/// How the node of activity `b` with id `k` is reported, if there is one.
pub open spec fn node_info(es: Seq<ActivityElement>, b: Seq<char>, k: Seq<char>) -> Option<(Seq<char>, Seq<char>, Seq<char>)> {
    match execution_node_at(es, b, k) {
        Some(i) => Some((es[i].element_id@, es[i].kind@, label_of(es[i]))),
        None => None,
    }
}

/// The reports of the first `n` of the nodes `ks` of activity `b`, those
/// that are no node left out.
pub open spec fn infos_upto(es: Seq<ActivityElement>, b: Seq<char>, ks: Seq<Seq<char>>, n: int) -> Seq<(Seq<char>, Seq<char>, Seq<char>)>
    decreases n,
{
    if n <= 0 {
        Seq::empty()
    } else {
        let r = infos_upto(es, b, ks, n - 1);
        match node_info(es, b, ks[n - 1]) {
            Some(x) => r.push(x),
            None => r,
        }
    }
}

/// The reports of the nodes `ks` of activity `b`.
pub open spec fn infos_of(es: Seq<ActivityElement>, b: Seq<char>, ks: Seq<Seq<char>>) -> Seq<(Seq<char>, Seq<char>, Seq<char>)> {
    infos_upto(es, b, ks, ks.len() as int)
}

/// `s` lists, in increasing order, exactly the ids of the nodes of
/// activity `b`.
pub open spec fn lists_node_ids(s: Seq<Seq<char>>, es: Seq<ActivityElement>, b: Seq<char>) -> bool {
    &&& forall|i: int, j: int| 0 <= i < j < s.len() ==> crate::text_order::seq_lt(#[trigger] s[i], #[trigger] s[j])
    &&& forall|k: Seq<char>| #[trigger] s.contains(k) <==> execution_node_at(es, b, k) is Some
}

/// The ids of the nodes of activity `b`, in increasing order.
pub open spec fn node_id_list(es: Seq<ActivityElement>, b: Seq<char>) -> Seq<Seq<char>> {
    choose|s: Seq<Seq<char>>| lists_node_ids(s, es, b)
}

/// Activity `b` has an action or control node.
pub open spec fn has_nodes(es: Seq<ActivityElement>, b: Seq<char>) -> bool {
    some_owned_node(es, b, es.len() as int) || (first_with_id(es, b, es.len() as int) matches Some(i)
        && is_execution_node(es[i]))
}

/// The warning raised for activity `b` when it has no node.
pub open spec fn no_nodes_issue(b: Seq<char>) -> (Seq<char>, Seq<char>, Seq<char>) {
    (
        "analysis.dynamic.activity_execution.no_nodes"@,
        "activity `"@ + b + "` has no executable action or control nodes"@,
        b,
    )
}

/// The warning raised for activity `b` when some of its nodes never ran.
pub open spec fn blocked_issue(b: Seq<char>) -> (Seq<char>, Seq<char>, Seq<char>) {
    (
        "analysis.dynamic.activity_execution.blocked_graph"@,
        "activity `"@ + b
            + "` could not complete; remaining nodes may be cyclic or waiting on unsupported control semantics"@,
        b,
    )
}

/// The status of a run of activity `b` with nodes: passed when every node
/// ran and no warning was raised, partial otherwise.
pub open spec fn binding_status(es: Seq<ActivityElement>, b: Seq<char>) -> CapabilityRunStatus {
    let ids = node_id_list(es, b);
    let (f, d) = flows_upto(es, b, ids, es.len() as int);
    let blocked = activity_schedule(ids, sorted_by_id(f)).1;
    if blocked.len() == 0 && d.len() == 0 {
        CapabilityRunStatus::Passed
    } else {
        CapabilityRunStatus::Partial
    }
}

proof fn lemma_node_id_list(s: Seq<(Seq<char>, ())>, es: Seq<ActivityElement>, b: Seq<char>)
    requires
        keys_sorted(s),
        forall|k: Seq<char>| #[trigger] has_key(s, k) == (execution_node_at(es, b, k) is Some),
    ensures
        set_ids(s) == node_id_list(es, b),
{
    let w = set_ids(s);
    assert forall|k: Seq<char>| #[trigger] w.contains(k) <==> execution_node_at(es, b, k) is Some by {
        if w.contains(k) {
            let i = choose|i: int| 0 <= i < w.len() && w[i] == k;
            assert(s[i].0 == k);
        }
        if has_key(s, k) {
            let i = choose|i: int| 0 <= i < s.len() && (#[trigger] s[i]).0 == k;
            assert(w[i] == k);
        }
    }
    assert(lists_node_ids(w, es, b));
    let c = node_id_list(es, b);
    assert(lists_node_ids(c, es, b));
    let p = c.map_values(|k: Seq<char>| (k, ()));
    assert forall|k: Seq<char>| lookup(p, k) == lookup(s, k) by {
        assert(has_key(p, k) == c.contains(k)) by {
            if c.contains(k) {
                let i = choose|i: int| 0 <= i < c.len() && c[i] == k;
                assert(p[i].0 == k);
            }
            if has_key(p, k) {
                let i = choose|i: int| 0 <= i < p.len() && (#[trigger] p[i]).0 == k;
                assert(c[i] == k);
            }
        }
    }
    lemma_sorted_lookup_unique(p, s);
    assert(c =~= w);
}

/// The reports of the nodes `ids` that are nodes of the activity.
fn node_infos(
    elements: &[ActivityElement],
    nodes: &StrMap<usize>,
    ids: &Vec<String>,
    Ghost(b): Ghost<Seq<char>>,
) -> (r: Vec<ActivityNodeInfo>)
    requires
        forall|k: Seq<char>| #[trigger] position_lookup(nodes@, k) == execution_node_at(elements@, b, k),
        forall|k: Seq<char>| #[trigger] lookup(nodes@, k) is Some ==> lookup(nodes@, k)->Some_0 < elements@.len(),
    ensures
        infos_view(r@) == infos_of(elements@, b, strings_view(ids@)),
{
    let ghost ks = strings_view(ids@);
    let mut r: Vec<ActivityNodeInfo> = Vec::new();
    let mut t: usize = 0;
    while t < ids.len()
        invariant
            ks == strings_view(ids@),
            t <= ids@.len(),
            forall|k: Seq<char>| #[trigger] position_lookup(nodes@, k) == execution_node_at(elements@, b, k),
            forall|k: Seq<char>| #[trigger] lookup(nodes@, k) is Some ==> lookup(nodes@, k)->Some_0 < elements@.len(),
            infos_view(r@) == infos_upto(elements@, b, ks, t as int),
        decreases ids@.len() - t,
    {
        let ghost k = ids@[t as int]@;
        let ghost r0 = infos_view(r@);
        match nodes.get(ids[t].as_str()) {
            Some(pos) => {
                let i = *pos;
                assert(lookup(nodes@, k) == Some(i));
                assert(position_lookup(nodes@, k) == Some(i as int));
                let element = &elements[i];
                let info = ActivityNodeInfo {
                    element_id: owned(element.element_id.as_str()),
                    kind: owned(element.kind.as_str()),
                    label: element_label(element),
                };
                r.push(info);
                proof {
                    assert(infos_view(r@) =~= r0.push(info@));
                }
            },
            None => {
                assert(position_lookup(nodes@, k) is None);
            },
        }
        t = t + 1;
    }
    r
}

/// `r` is what running activity `b` among elements `es` gives: with no
/// node, a partial run that raises one warning; otherwise its nodes (by
/// id), its flows (by id), the steps of its schedule and the nodes that
/// never ran, reported as nodes, with the warnings about unresolved flows
/// and, when some node never ran, one about that.
pub open spec fn executes(es: Seq<ActivityElement>, b: Seq<char>, r: ActivityBindingExecution) -> bool {
    &&& (!has_nodes(es, b) ==> {
            &&& r.status == CapabilityRunStatus::Partial
            &&& r.execution_state@ == "no_executable_nodes"@
            &&& r.node_count == 0
            &&& r.edge_count == 0
            &&& r.steps@.len() == 0
            &&& r.flows@.len() == 0
            &&& r.blocked_nodes@.len() == 0
            &&& issues_view(r.diagnostics@) == seq![no_nodes_issue(b)]
            &&& r.limitations@.len() == 0
        })
    &&& (has_nodes(es, b) ==> {
            let ids = node_id_list(es, b);
            let (f, d) = flows_upto(es, b, ids, es.len() as int);
            let sched = activity_schedule(ids, sorted_by_id(f));
            &&& r.status == binding_status(es, b)
            &&& r.execution_state@ == execution_state(r.status)
            &&& r.node_count == ids.len()
            &&& r.edge_count == f.len()
            &&& flows_view(r.flows@) == sorted_by_id(f)
            &&& step_infos_view(r.steps@) == sched.0.map_values(|st: Seq<Seq<char>>| infos_of(es, b, st))
            &&& infos_view(r.blocked_nodes@) == infos_of(es, b, sched.1)
            &&& issues_view(r.diagnostics@) == if sched.1.len() > 0 {
                d.push(blocked_issue(b))
            } else {
                d
            }
            &&& r.limitations@.len() == 0
        })
}

/// Runs the activity `behavior_id` among `elements`: finds its nodes and
/// flows, runs the nodes step by step, and reports what ran, what never
/// could, and the warnings raised on the way.
pub fn execute_activity_binding(elements: &[ActivityElement], behavior_id: &str) -> (r: ActivityBindingExecution)
    ensures
        executes(elements@, behavior_id@, r),
{
    let ghost es = elements@;
    let ghost b = behavior_id@;
    let nodes = activity_execution_nodes(elements, behavior_id);
    if nodes.len() == 0 {
        proof {
            assert(!has_nodes(es, b)) by {
                if some_owned_node(es, b, es.len() as int) {
                    lemma_some_owned_has_last(es, b, es.len() as int);
                    let k = choose|k: Seq<char>| last_owned_node(es, b, k, es.len() as int) is Some;
                    assert(position_lookup(nodes@, k) is Some);
                } else if first_with_id(es, b, es.len() as int) matches Some(i) && is_execution_node(es[i]) {
                    assert(position_lookup(nodes@, b) is Some);
                }
            }
        }
        let message = concat3("activity `", behavior_id, "` has no executable action or control nodes");
        let issue = ActivityIssue {
            code: owned("analysis.dynamic.activity_execution.no_nodes"),
            message,
            subject: owned(behavior_id),
        };
        let mut diagnostics: Vec<ActivityIssue> = Vec::new();
        diagnostics.push(issue);
        proof {
            assert(issues_view(diagnostics@) =~= seq![no_nodes_issue(b)]);
        }
        return ActivityBindingExecution {
            status: CapabilityRunStatus::Partial,
            execution_state: owned("no_executable_nodes"),
            node_count: 0,
            edge_count: 0,
            steps: Vec::new(),
            flows: Vec::new(),
            blocked_nodes: Vec::new(),
            diagnostics,
            limitations: Vec::new(),
        };
    }
    proof {
        let k0 = nodes@[0].0;
        assert(has_key(nodes@, k0));
        assert(position_lookup(nodes@, k0) is Some);
        assert(has_nodes(es, b)) by {
            if !some_owned_node(es, b, es.len() as int) {
                assert(execution_node_at(es, b, k0) is Some);
            }
        }
    }
    let mut node_ids: StrSet = StrMap::new();
    let nn = nodes.len();
    let mut t: usize = 0;
    while t < nn
        invariant
            nn == nodes@.len(),
            t <= nn,
            forall|k: Seq<char>| #[trigger] has_key(node_ids@, k) == exists|m: int| 0 <= m < t && (#[trigger] nodes@[m]).0 == k,
        decreases nn - t,
    {
        let ghost s0 = node_ids@;
        let ghost kt = nodes@[t as int].0;
        node_ids.insert(owned(nodes.key_at(t).as_str()), ());
        t = t + 1;
        proof {
            assert forall|k: Seq<char>| #[trigger] has_key(node_ids@, k) == exists|m: int| 0 <= m < t && (#[trigger] nodes@[m]).0 == k by {
                assert(lookup(node_ids@, k) == if k == kt {
                    Some(())
                } else {
                    lookup(s0, k)
                });
                assert(has_key(s0, k) == exists|m: int| 0 <= m < t - 1 && (#[trigger] nodes@[m]).0 == k);
                if exists|m: int| 0 <= m < t && (#[trigger] nodes@[m]).0 == k {
                    let m = choose|m: int| 0 <= m < t && (#[trigger] nodes@[m]).0 == k;
                    if m < t - 1 {
                        assert(exists|m2: int| 0 <= m2 < t - 1 && (#[trigger] nodes@[m2]).0 == k);
                    }
                }
                if exists|m: int| 0 <= m < t - 1 && (#[trigger] nodes@[m]).0 == k {
                    let m = choose|m: int| 0 <= m < t - 1 && (#[trigger] nodes@[m]).0 == k;
                    assert(0 <= m < t && nodes@[m].0 == k);
                }
            }
        }
    }
    let _ = node_ids.len();
    proof {
        assert forall|k: Seq<char>| #[trigger] has_key(node_ids@, k) == (execution_node_at(es, b, k) is Some) by {
            assert(position_lookup(nodes@, k) == execution_node_at(es, b, k));
            if has_key(nodes@, k) {
                let m = choose|m: int| 0 <= m < nodes@.len() && (#[trigger] nodes@[m]).0 == k;
                assert(0 <= m < nn && nodes@[m].0 == k);
            }
        }
        lemma_node_id_list(node_ids@, es, b);
    }
    let ghost ids = set_ids(node_ids@);
    let mut diagnostics: Vec<ActivityIssue> = Vec::new();
    let flows = activity_flows(elements, behavior_id, &node_ids, &mut diagnostics);
    proof {
        assert(issues_view(Seq::<ActivityIssue>::empty()) =~= Seq::empty());
        assert(issues_view(diagnostics@) =~= flows_upto(es, b, ids, es.len() as int).1);
    }
    let (step_ids, blocked_ids) = schedule_activity(&node_ids, flows.as_slice());
    let ghost sched = activity_schedule(ids, flows_view(flows@));
    let mut steps: Vec<Vec<ActivityNodeInfo>> = Vec::new();
    let mut q: usize = 0;
    while q < step_ids.len()
        invariant
            q <= step_ids@.len(),
            steps_view(step_ids@) == sched.0,
            forall|k: Seq<char>| #[trigger] position_lookup(nodes@, k) == execution_node_at(elements@, b, k),
            forall|k: Seq<char>| #[trigger] lookup(nodes@, k) is Some ==> lookup(nodes@, k)->Some_0 < elements@.len(),
            es == elements@,
            step_infos_view(steps@) == sched.0.take(q as int).map_values(|st: Seq<Seq<char>>| infos_of(es, b, st)),
        decreases step_ids@.len() - q,
    {
        let infos = node_infos(elements, &nodes, &step_ids[q], Ghost(b));
        let ghost v0 = step_infos_view(steps@);
        let ghost iv = infos_view(infos@);
        steps.push(infos);
        proof {
            assert(sched.0[q as int] == strings_view(step_ids@[q as int]@));
            assert(step_infos_view(steps@) =~= v0.push(iv));
            assert(sched.0.take(q + 1) =~= sched.0.take(q as int).push(sched.0[q as int]));
            assert(step_infos_view(steps@) =~= sched.0.take(q + 1).map_values(|st: Seq<Seq<char>>| infos_of(es, b, st)));
        }
        q = q + 1;
    }
    proof {
        assert(sched.0.take(step_ids@.len() as int) =~= sched.0);
    }
    let blocked_nodes = node_infos(elements, &nodes, &blocked_ids, Ghost(b));
    let status = if blocked_ids.len() == 0 && diagnostics.len() == 0 {
        CapabilityRunStatus::Passed
    } else {
        if blocked_ids.len() > 0 {
            let ghost d0 = issues_view(diagnostics@);
            let message = concat3(
                "activity `",
                behavior_id,
                "` could not complete; remaining nodes may be cyclic or waiting on unsupported control semantics",
            );
            let issue = ActivityIssue {
                code: owned("analysis.dynamic.activity_execution.blocked_graph"),
                message,
                subject: owned(behavior_id),
            };
            diagnostics.push(issue);
            proof {
                assert(issues_view(diagnostics@) =~= d0.push(blocked_issue(b)));
            }
        }
        CapabilityRunStatus::Partial
    };
    let execution_state = owned(activity_execution_state(status));
    proof {
        lemma_sorted_len(flows_upto(es, b, ids, es.len() as int).0);
    }
    ActivityBindingExecution {
        status,
        execution_state,
        node_count: node_ids.len(),
        edge_count: flows.len(),
        steps,
        flows,
        blocked_nodes,
        diagnostics,
        limitations: Vec::new(),
    }
}

proof fn lemma_sorted_len(s: Seq<(Seq<char>, Seq<char>, Seq<char>)>)
    ensures
        sorted_by_id(s).len() == s.len(),
    decreases s.len(),
{
    if s.len() > 0 {
        lemma_sorted_len(s.drop_last());
        lemma_insert_position_bounds(sorted_by_id(s.drop_last()), s.last(), 0);
    }
}

proof fn lemma_some_owned_has_last(es: Seq<ActivityElement>, b: Seq<char>, n: int)
    requires
        some_owned_node(es, b, n),
    ensures
        exists|k: Seq<char>| #[trigger] last_owned_node(es, b, k, n) is Some,
    decreases n,
{
    if owned_node(es[n - 1], b) {
        assert(last_owned_node(es, b, es[n - 1].element_id@, n) is Some);
    } else {
        lemma_some_owned_has_last(es, b, n - 1);
        let k = choose|k: Seq<char>| #[trigger] last_owned_node(es, b, k, n - 1) is Some;
        assert(last_owned_node(es, b, k, n) is Some);
    }
}


// ------------------------------------------------------------ laws

/// Every node of every step has each of its predecessors in `done` or in
/// an earlier step.
pub open spec fn after_predecessors(
    steps: Seq<Seq<Seq<char>>>,
    flows: Seq<(Seq<char>, Seq<char>, Seq<char>)>,
    done: Set<Seq<char>>,
) -> bool {
    forall|k: int, m: int, i: int|
        #![trigger steps[k][m], flows[i]]
        0 <= k < steps.len() && 0 <= m < steps[k].len() && 0 <= i < flows.len() && flows[i].2 == steps[k][m]
            ==> done.contains(flows[i].1) || exists|j: int| 0 <= j < k && (#[trigger] steps[j]).contains(flows[i].1)
}

/// No node of a step is in `done` or in another step, and `fin` holds
/// exactly `done` and the nodes of the steps.
pub open spec fn runs_once(steps: Seq<Seq<Seq<char>>>, done: Set<Seq<char>>, fin: Set<Seq<char>>) -> bool {
    &&& forall|k: int, m: int| 0 <= k < steps.len() && 0 <= m < steps[k].len() ==> !done.contains(#[trigger] steps[k][m])
    &&& forall|k: int, j: int, m: int| 0 <= j < k < steps.len() && 0 <= m < steps[k].len() ==> !(#[trigger] steps[j]).contains(
        #[trigger] steps[k][m],
    )
    &&& forall|x: Seq<char>| #[trigger] fin.contains(x) <==> (done.contains(x) || exists|k: int|
        0 <= k < steps.len() && (#[trigger] steps[k]).contains(x))
}

proof fn lemma_run_steps_laws(
    ids: Seq<Seq<char>>,
    flows: Seq<(Seq<char>, Seq<char>, Seq<char>)>,
    done: Set<Seq<char>>,
    fuel: nat,
)
    ensures
        after_predecessors(run_steps(ids, flows, done, fuel).0, flows, done),
        runs_once(run_steps(ids, flows, done, fuel).0, done, run_steps(ids, flows, done, fuel).1),
    decreases fuel,
{
    let e = enabled(ids, flows, done);
    let (steps, fin) = run_steps(ids, flows, done, fuel);
    if fuel == 0 || e.len() == 0 {
        assert(steps.len() == 0);
    } else {
        let d1 = done.union(e.to_set());
        let (rest, fin1) = run_steps(ids, flows, d1, (fuel - 1) as nat);
        lemma_run_steps_laws(ids, flows, d1, (fuel - 1) as nat);
        lemma_enabled_members(ids, flows, done, ids.len() as int);
        assert(steps == seq![e] + rest);
        assert(fin == fin1);
        assert(steps[0] == e);
        assert forall|k: int, m: int, i: int|
            #![trigger steps[k][m], flows[i]]
            0 <= k < steps.len() && 0 <= m < steps[k].len() && 0 <= i < flows.len() && flows[i].2 == steps[k][m]
            implies done.contains(flows[i].1) || exists|j: int| 0 <= j < k && (#[trigger] steps[j]).contains(flows[i].1) by {
            if k == 0 {
                assert(ready(flows, done, e[m]));
            } else {
                assert(steps[k] == rest[k - 1]);
                assert(rest[k - 1][m] == steps[k][m]);
                if d1.contains(flows[i].1) {
                    if !done.contains(flows[i].1) {
                        assert(steps[0].contains(flows[i].1));
                    }
                } else {
                    let j = choose|j: int| 0 <= j < k - 1 && (#[trigger] rest[j]).contains(flows[i].1);
                    assert(steps[j + 1] == rest[j]);
                }
            }
        }
        assert forall|k: int, m: int| 0 <= k < steps.len() && 0 <= m < steps[k].len() implies !done.contains(
            #[trigger] steps[k][m],
        ) by {
            if k == 0 {
                assert(ready(flows, done, e[m]));
            } else {
                assert(steps[k] == rest[k - 1]);
                assert(!d1.contains(rest[k - 1][m]));
            }
        }
        assert forall|k: int, j: int, m: int| 0 <= j < k < steps.len() && 0 <= m < steps[k].len() implies !(
        #[trigger] steps[j]).contains(#[trigger] steps[k][m]) by {
            assert(steps[k] == rest[k - 1]);
            let x = steps[k][m];
            assert(!d1.contains(rest[k - 1][m]));
            if j == 0 {
                if e.contains(x) {
                    assert(e.to_set().contains(x));
                }
            } else {
                assert(steps[j] == rest[j - 1]);
            }
        }
        assert forall|x: Seq<char>| #[trigger] fin.contains(x) <==> (done.contains(x) || exists|k: int|
            0 <= k < steps.len() && (#[trigger] steps[k]).contains(x)) by {
            if fin.contains(x) && !done.contains(x) {
                if d1.contains(x) {
                    assert(steps[0].contains(x));
                } else {
                    let k = choose|k: int| 0 <= k < rest.len() && (#[trigger] rest[k]).contains(x);
                    assert(steps[k + 1] == rest[k]);
                }
            }
            if exists|k: int| 0 <= k < steps.len() && (#[trigger] steps[k]).contains(x) {
                let k = choose|k: int| 0 <= k < steps.len() && (#[trigger] steps[k]).contains(x);
                if k == 0 {
                    assert(e.to_set().contains(x));
                } else {
                    assert(steps[k] == rest[k - 1]);
                }
            }
        }
    }
}

/// An activity's schedule runs a node only after all its predecessors: for
/// every flow into a node of some step, the flow's source ran in an earlier
/// step.
pub proof fn lemma_schedule_respects_flows(ids: Seq<Seq<char>>, flows: Seq<(Seq<char>, Seq<char>, Seq<char>)>)
    ensures
        forall|k: int, m: int, i: int|
            #![trigger activity_schedule(ids, flows).0[k][m], flows[i]]
            0 <= k < activity_schedule(ids, flows).0.len() && 0 <= m < activity_schedule(ids, flows).0[k].len() && 0
                <= i < flows.len() && flows[i].2 == activity_schedule(ids, flows).0[k][m] ==> exists|j: int|
                0 <= j < k && (#[trigger] activity_schedule(ids, flows).0[j]).contains(flows[i].1),
{
    lemma_run_steps_laws(ids, flows, Set::empty(), ids.len());
}

/// An activity's schedule runs each node at most once, and the nodes it
/// reports as never run are exactly those of `ids` that ran in no step.
pub proof fn lemma_schedule_runs_once(ids: Seq<Seq<char>>, flows: Seq<(Seq<char>, Seq<char>, Seq<char>)>)
    ensures
        forall|k: int, j: int, m: int|
            0 <= j < k < activity_schedule(ids, flows).0.len() && 0 <= m < activity_schedule(ids, flows).0[k].len()
                ==> !(#[trigger] activity_schedule(ids, flows).0[j]).contains(
                #[trigger] activity_schedule(ids, flows).0[k][m],
            ),
        forall|x: Seq<char>| #[trigger] activity_schedule(ids, flows).1.contains(x) <==> (ids.contains(x) && !exists|k: int|
            0 <= k < activity_schedule(ids, flows).0.len() && (#[trigger] activity_schedule(ids, flows).0[k]).contains(x)),
{
    let (steps, fin) = run_steps(ids, flows, Set::empty(), ids.len());
    lemma_run_steps_laws(ids, flows, Set::empty(), ids.len());
    lemma_pending_members(ids, fin, ids.len() as int);
    assert forall|x: Seq<char>| #[trigger] activity_schedule(ids, flows).1.contains(x) <==> (ids.contains(x) && !exists|k: int|
        0 <= k < steps.len() && (#[trigger] steps[k]).contains(x)) by {
        assert(ids.take(ids.len() as int) =~= ids);
        assert(fin.contains(x) <==> (Set::<Seq<char>>::empty().contains(x) || exists|k: int|
            0 <= k < steps.len() && (#[trigger] steps[k]).contains(x)));
    }
}

proof fn lemma_pending_members(ids: Seq<Seq<char>>, done: Set<Seq<char>>, t: int)
    requires
        0 <= t <= ids.len(),
    ensures
        forall|x: Seq<char>| #[trigger] pending_upto(ids, done, t).contains(x) <==> (ids.take(t).contains(x)
            && !done.contains(x)),
    decreases t,
{
    if t > 0 {
        lemma_pending_members(ids, done, t - 1);
        let p0 = pending_upto(ids, done, t - 1);
        assert forall|x: Seq<char>| #[trigger] pending_upto(ids, done, t).contains(x) <==> (ids.take(t).contains(x)
            && !done.contains(x)) by {
            if ids.take(t).contains(x) {
                let q = choose|q: int| 0 <= q < t && #[trigger] ids.take(t)[q] == x;
                if q < t - 1 {
                    assert(ids.take(t - 1)[q] == x);
                }
            }
            if ids.take(t - 1).contains(x) {
                let q = choose|q: int| 0 <= q < t - 1 && #[trigger] ids.take(t - 1)[q] == x;
                assert(ids.take(t)[q] == x);
            }
            assert(ids.take(t)[t - 1] == ids[t - 1]);
            if !done.contains(ids[t - 1]) {
                assert(pending_upto(ids, done, t) == p0.push(ids[t - 1]));
                if p0.push(ids[t - 1]).contains(x) && x != ids[t - 1] {
                    let q = choose|q: int| 0 <= q < p0.len() + 1 && #[trigger] p0.push(ids[t - 1])[q] == x;
                    assert(p0[q] == x);
                }
                if p0.contains(x) {
                    let q = choose|q: int| 0 <= q < p0.len() && #[trigger] p0[q] == x;
                    assert(p0.push(ids[t - 1])[q] == x);
                }
                if x == ids[t - 1] {
                    assert(p0.push(ids[t - 1])[p0.len() as int] == x);
                }
            }
        }
    }
}


/// The flows of `s` in non-decreasing id order.
pub open spec fn id_ordered(s: Seq<(Seq<char>, Seq<char>, Seq<char>)>) -> bool {
    forall|i: int, j: int| 0 <= i < j < s.len() ==> !crate::text_order::seq_lt(#[trigger] s[j].0, #[trigger] s[i].0)
}

proof fn lemma_insert_position_spec(t: Seq<(Seq<char>, Seq<char>, Seq<char>)>, x: (Seq<char>, Seq<char>, Seq<char>), j: int)
    requires
        0 <= j <= t.len(),
    ensures
        forall|q: int| j <= q < insert_position(t, x, j) ==> !crate::text_order::seq_lt(x.0, #[trigger] t[q].0),
        insert_position(t, x, j) < t.len() ==> crate::text_order::seq_lt(x.0, t[insert_position(t, x, j)].0),
    decreases t.len() - j,
{
    if j < t.len() && !crate::text_order::seq_lt(x.0, t[j].0) {
        lemma_insert_position_spec(t, x, j + 1);
    }
}

/// Sorting flows by id orders them by id and keeps every flow, each as
/// often as it was there.
pub proof fn lemma_sorted_by_id(s: Seq<(Seq<char>, Seq<char>, Seq<char>)>)
    ensures
        id_ordered(sorted_by_id(s)),
        sorted_by_id(s).to_multiset() == s.to_multiset(),
    decreases s.len(),
{
    broadcast use vstd::seq_lib::group_to_multiset_ensures;

    if s.len() > 0 {
        let t = sorted_by_id(s.drop_last());
        let x = s.last();
        lemma_sorted_by_id(s.drop_last());
        lemma_insert_position_bounds(t, x, 0);
        lemma_insert_position_spec(t, x, 0);
        let p = insert_position(t, x, 0);
        let u = t.insert(p, x);
        assert(sorted_by_id(s) == u);
        assert forall|i: int, j: int| 0 <= i < j < u.len() implies !crate::text_order::seq_lt(
            #[trigger] u[j].0,
            #[trigger] u[i].0,
        ) by {
            if i < p && j < p {
                assert(u[i] == t[i] && u[j] == t[j]);
            } else if i < p && j == p {
                assert(u[i] == t[i] && u[j] == x);
            } else if i < p {
                assert(u[i] == t[i] && u[j] == t[j - 1]);
            } else if i == p {
                assert(u[i] == x && u[j] == t[j - 1]);
                let a = t[p].0;
                let c = t[j - 1].0;
                crate::text_order::lemma_seq_lt_trichotomy(c, a);
                if crate::text_order::seq_lt(a, c) {
                    crate::text_order::lemma_seq_lt_transitive(x.0, a, c);
                }
                crate::text_order::lemma_seq_lt_trichotomy(x.0, c);
            } else {
                assert(u[i] == t[i - 1] && u[j] == t[j - 1]);
            }
        }
        assert(u.remove(p) =~= t);
        assert(s.drop_last().push(x) =~= s);
        assert(u.to_multiset() =~= t.to_multiset().insert(x)) by {
            assert(u[p] == x);
            assert(u.remove(p).to_multiset() =~= u.to_multiset().remove(x));
            assert(u.to_multiset().count(x) > 0) by {
                assert(u.contains(x));
            }
        }
    }
}


// ------------------------------------------------------------ analysis case

/// A behavior bound to a subject in an analysis case: the ids of the
/// subject and of the behavior, and whether the behavior is an activity.
pub struct BehaviorBinding {
    pub subject_id: String,
    pub behavior_id: String,
    pub is_activity: bool,
}

/// What running the activity bindings of an analysis case gives: the
/// overall status and execution state, one execution per activity binding,
/// the ids and labels under which the run, its summary artifact and each
/// binding are recorded, and the warnings and limitations to report.
pub struct ActivityExecutionSummary {
    pub status: CapabilityRunStatus,
    pub execution_state: String,
    pub executions: Vec<ActivityBindingExecution>,
    pub artifact_id: String,
    pub run_evidence_id: String,
    pub run_label: String,
    pub binding_evidence: Vec<(String, String)>,
    pub diagnostics: Vec<ActivityIssue>,
    pub limitations: Vec<String>,
}

/// The activity bindings among the first `n` of `bs`, in order.
pub open spec fn activity_bindings_upto(bs: Seq<BehaviorBinding>, n: int) -> Seq<BehaviorBinding>
    decreases n,
{
    if n <= 0 {
        Seq::empty()
    } else if bs[n - 1].is_activity {
        activity_bindings_upto(bs, n - 1).push(bs[n - 1])
    } else {
        activity_bindings_upto(bs, n - 1)
    }
}

/// The statuses of a list of executions.
pub open spec fn statuses_of(v: Seq<ActivityBindingExecution>) -> Seq<CapabilityRunStatus> {
    v.map_values(|x: ActivityBindingExecution| x.status)
}

/// The warnings of the first `n` executions, one after the other.
pub open spec fn issues_upto(v: Seq<ActivityBindingExecution>, n: int) -> Seq<(Seq<char>, Seq<char>, Seq<char>)>
    decreases n,
{
    if n <= 0 {
        Seq::empty()
    } else {
        issues_upto(v, n - 1) + issues_view(v[n - 1].diagnostics@)
    }
}

/// What an activity run reports it does not yet support.
pub open spec fn activity_limitation() -> Seq<char> {
    "Phase 5 activity execution supports deterministic action/control-flow DAGs; object flow, decisions, guards, durations, and streaming tokens are not implemented yet"@
}

/// The record of binding `i` of run `run`: its id and its label.
pub open spec fn binding_record(run: Seq<char>, i: nat, b: BehaviorBinding) -> (Seq<char>, Seq<char>) {
    (
        "evidence."@ + sanitized(run) + ".activity_binding."@ + decimal(i),
        "Activity binding "@ + b.subject_id@ + " -> "@ + b.behavior_id@,
    )
}

/// The views of a list of pairs of strings.
pub open spec fn pairs_view(v: Seq<(String, String)>) -> Seq<(Seq<char>, Seq<char>)> {
    v.map_values(|p: (String, String)| (p.0@, p.1@))
}

/// Runs every activity binding of analysis case `case_id` in run `run_id`
/// and sums the runs up.
pub fn activity_execution_summary(
    elements: &[ActivityElement],
    case_id: &str,
    run_id: &str,
    bindings: &[BehaviorBinding],
) -> (r: ActivityExecutionSummary)
    ensures
        ({
            let ab = activity_bindings_upto(bindings@, bindings@.len() as int);
            &&& r.executions@.len() == ab.len()
            &&& forall|i: int| 0 <= i < ab.len() ==> executes(elements@, ab[i].behavior_id@, #[trigger] r.executions@[i])
            &&& r.status == aggregate(statuses_of(r.executions@))
            &&& r.execution_state@ == execution_state(r.status)
            &&& r.artifact_id@ == "artifact."@ + sanitized(run_id@) + ".activity_execution."@ + sanitized(case_id@)
            &&& r.run_evidence_id@ == "evidence."@ + sanitized(run_id@) + ".activity_execution."@ + sanitized(case_id@)
            &&& r.run_label@ == "Activity execution analysis case "@ + case_id@
            &&& pairs_view(r.binding_evidence@) == Seq::new(ab.len(), |i: int| binding_record(run_id@, i as nat, ab[i]))
            &&& issues_view(r.diagnostics@) == issues_upto(r.executions@, r.executions@.len() as int)
            &&& strings_view(r.limitations@) == seq![activity_limitation()]
        }),
{
    proof {
        reveal_strlit("");
    }
    let sr = crate::simulation::sanitize_identifier(run_id);
    let sc = crate::simulation::sanitize_identifier(case_id);
    let mut executions: Vec<ActivityBindingExecution> = Vec::new();
    let mut records: Vec<(String, String)> = Vec::new();
    let mut statuses: Vec<CapabilityRunStatus> = Vec::new();
    let mut diagnostics: Vec<ActivityIssue> = Vec::new();
    let mut i: usize = 0;
    while i < bindings.len()
        invariant
            i <= bindings@.len(),
            sr@ == sanitized(run_id@),
            executions@.len() == activity_bindings_upto(bindings@, i as int).len(),
            forall|j: int| 0 <= j < executions@.len() ==> executes(
                elements@,
                activity_bindings_upto(bindings@, i as int)[j].behavior_id@,
                #[trigger] executions@[j],
            ),
            statuses@ == statuses_of(executions@),
            pairs_view(records@) == Seq::new(
                executions@.len(),
                |j: int| binding_record(run_id@, j as nat, activity_bindings_upto(bindings@, i as int)[j]),
            ),
            issues_view(diagnostics@) == issues_upto(executions@, executions@.len() as int),
            forall|j: int| 0 <= j < executions@.len() ==> (#[trigger] executions@[j]).limitations@.len() == 0,
        decreases bindings@.len() - i,
    {
        let binding = &bindings[i];
        if binding.is_activity {
            let ghost ab0 = activity_bindings_upto(bindings@, i as int);
            let ghost e0 = executions@;
            let ghost r0 = pairs_view(records@);
            let ghost d0 = issues_view(diagnostics@);
            let execution = execute_activity_binding(elements, binding.behavior_id.as_str());
            let index = executions.len();
            let id = concat3(concat3("evidence.", sr.as_str(), ".activity_binding.").as_str(), usize_to_string(index).as_str(), "");
            let label = concat3(
                concat3("Activity binding ", binding.subject_id.as_str(), " -> ").as_str(),
                binding.behavior_id.as_str(),
                "",
            );
            let ghost rec = (id@, label@);
            proof {
                reveal_strlit("");
                assert(id@ =~= "evidence."@ + sanitized(run_id@) + ".activity_binding."@ + decimal(index as nat));
                assert(label@ =~= "Activity binding "@ + binding.subject_id@ + " -> "@ + binding.behavior_id@);
                assert(rec == binding_record(run_id@, e0.len() as nat, *binding));
            }
            records.push((id, label));
            statuses.push(execution.status);
            let mut k: usize = 0;
            while k < execution.diagnostics.len()
                invariant
                    k <= execution.diagnostics@.len(),
                    issues_view(diagnostics@) == d0 + issues_view(execution.diagnostics@).take(k as int),
                decreases execution.diagnostics@.len() - k,
            {
                let d = &execution.diagnostics[k];
                let ghost dk = issues_view(diagnostics@);
                diagnostics.push(
                    ActivityIssue {
                        code: owned(d.code.as_str()),
                        message: owned(d.message.as_str()),
                        subject: owned(d.subject.as_str()),
                    },
                );
                proof {
                    assert(issues_view(diagnostics@) =~= dk.push(d@));
                    assert(issues_view(execution.diagnostics@).take(k + 1) =~= issues_view(execution.diagnostics@).take(
                        k as int,
                    ).push(d@));
                }
                k = k + 1;
            }
            proof {
                assert(issues_view(execution.diagnostics@).take(execution.diagnostics@.len() as int) =~= issues_view(
                    execution.diagnostics@,
                ));
            }
            executions.push(execution);
            proof {
                let ab1 = activity_bindings_upto(bindings@, i + 1);
                assert(ab1 == ab0.push(*binding));
                assert(executions@ == e0.push(executions@[e0.len() as int]));
                assert forall|j: int| 0 <= j < executions@.len() implies executes(
                    elements@,
                    ab1[j].behavior_id@,
                    #[trigger] executions@[j],
                ) by {
                    if j < e0.len() {
                        assert(executions@[j] == e0[j]);
                        assert(ab1[j] == ab0[j]);
                    }
                }
                assert(statuses@ =~= statuses_of(executions@));
                assert(pairs_view(records@) =~= r0.push(rec));
                assert forall|j: int| 0 <= j < executions@.len() implies #[trigger] pairs_view(records@)[j]
                    == binding_record(run_id@, j as nat, ab1[j]) by {
                    if j < e0.len() {
                        assert(ab1[j] == ab0[j]);
                        assert(pairs_view(records@)[j] == r0[j]);
                    }
                }
                assert(pairs_view(records@) =~= Seq::new(
                    executions@.len(),
                    |j: int| binding_record(run_id@, j as nat, ab1[j]),
                ));
                assert(issues_upto(executions@, e0.len() as int) == issues_upto(e0, e0.len() as int)) by {
                    lemma_issues_upto_prefix(e0, executions@, e0.len() as int);
                }
                assert forall|j: int| 0 <= j < executions@.len() implies (#[trigger] executions@[j]).limitations@.len()
                    == 0 by {
                    if j < e0.len() {
                        assert(executions@[j] == e0[j]);
                    }
                }
            }
        }
        i = i + 1;
    }
    let status = aggregate_capability_status(statuses.as_slice());
    let mut limitations: Vec<String> = Vec::new();
    limitations.push(
        owned(
            "Phase 5 activity execution supports deterministic action/control-flow DAGs; object flow, decisions, guards, durations, and streaming tokens are not implemented yet",
        ),
    );
    proof {
        assert(strings_view(limitations@) =~= seq![activity_limitation()]);
    }
    ActivityExecutionSummary {
        status,
        execution_state: owned(activity_execution_state(status)),
        executions,
        artifact_id: concat3(concat3("artifact.", sr.as_str(), ".activity_execution.").as_str(), sc.as_str(), ""),
        run_evidence_id: concat3(concat3("evidence.", sr.as_str(), ".activity_execution.").as_str(), sc.as_str(), ""),
        run_label: concat2("Activity execution analysis case ", case_id),
        binding_evidence: records,
        diagnostics,
        limitations,
    }
}

proof fn lemma_issues_upto_prefix(a: Seq<ActivityBindingExecution>, b: Seq<ActivityBindingExecution>, n: int)
    requires
        0 <= n <= a.len(),
        n <= b.len(),
        forall|j: int| 0 <= j < n ==> a[j] == b[j],
    ensures
        issues_upto(a, n) == issues_upto(b, n),
    decreases n,
{
    if n > 0 {
        lemma_issues_upto_prefix(a, b, n - 1);
    }
}

} // verus!
