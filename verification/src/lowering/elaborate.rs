//! Semantic elaboration helpers.
use vstd::prelude::*;

use crate::kerml::ast::strings_view;
use crate::lowering::bundle::{MappingBundle, MappingView, first_rule_for_construct};
use crate::lowering::ir::ResolvedUsage;
use crate::text::str_eq;

verus! {

/// `s` with every repeated entry dropped, first occurrences kept in order.
pub open spec fn dedupe(s: Seq<Seq<char>>) -> Seq<Seq<char>>
    decreases s.len(),
{
    if s.len() == 0 {
        s
    } else {
        let d = dedupe(s.drop_last());
        if d.contains(s.last()) {
            d
        } else {
            d.push(s.last())
        }
    }
}

/// Deduplication keeps exactly the entries of `s`, each once.
pub proof fn lemma_dedupe(s: Seq<Seq<char>>)
    ensures
        forall|x: Seq<char>| #[trigger] dedupe(s).contains(x) <==> s.contains(x),
        forall|i: int, j: int|
            0 <= i < j < dedupe(s).len() ==> #[trigger] dedupe(s)[i] != #[trigger] dedupe(s)[j],
    decreases s.len(),
{
    if s.len() > 0 {
        let p = s.drop_last();
        lemma_dedupe(p);
        let d = dedupe(p);
        assert forall|x: Seq<char>| #[trigger] dedupe(s).contains(x) <==> s.contains(x) by {
            let ds = dedupe(s);
            assert(s.contains(x) <==> (p.contains(x) || x == s.last())) by {
                if s.contains(x) {
                    let k = choose|k: int| 0 <= k < s.len() && s[k] == x;
                    if k < s.len() - 1 {
                        assert(p[k] == x);
                    }
                }
                if p.contains(x) {
                    let k = choose|k: int| 0 <= k < p.len() && p[k] == x;
                    assert(s[k] == x);
                }
                if x == s.last() {
                    assert(s[s.len() - 1] == x);
                }
            }
            if !d.contains(s.last()) {
                assert(ds == d.push(s.last()));
                assert(ds.contains(x) <==> (d.contains(x) || x == s.last())) by {
                    if ds.contains(x) {
                        let k = choose|k: int| 0 <= k < ds.len() && ds[k] == x;
                        if k < d.len() {
                            assert(d[k] == x);
                        }
                    }
                    if d.contains(x) {
                        let k = choose|k: int| 0 <= k < d.len() && d[k] == x;
                        assert(ds[k] == x);
                    }
                    if x == s.last() {
                        assert(ds[d.len() as int] == x);
                    }
                }
            }
        }
        assert forall|i: int, j: int|
            0 <= i < j < dedupe(s).len() implies #[trigger] dedupe(s)[i] != #[trigger] dedupe(s)[j] by {
            if !d.contains(s.last()) && j == d.len() {
                assert(d[i] == dedupe(s)[i]);
            } else {
                assert(d[i] == dedupe(s)[i]);
                assert(d[j] == dedupe(s)[j]);
            }
        }
    }
}

/// The values with repeats dropped, first occurrences kept in order.
pub fn dedupe_refs(values: Vec<String>) -> (r: Vec<String>)
    ensures
        strings_view(r@) == dedupe(strings_view(values@)),
        forall|x: Seq<char>| #[trigger] strings_view(r@).contains(x) <==> strings_view(values@).contains(x),
        forall|i: int, j: int| 0 <= i < j < r@.len() ==> (#[trigger] r@[i])@ != (#[trigger] r@[j])@,
{
    let ghost vs = strings_view(values@);
    let mut out: Vec<String> = Vec::new();
    let mut i: usize = 0;
    while i < values.len()
        invariant
            i <= values@.len(),
            vs == strings_view(values@),
            strings_view(out@) == dedupe(vs.take(i as int)),
        decreases values@.len() - i,
    {
        let v = values[i].as_str();
        proof {
            assert(vs.take(i + 1).drop_last() =~= vs.take(i as int));
            assert(vs.take(i + 1).last() == v@);
        }
        let mut seen = false;
        let mut k: usize = 0;
        while k < out.len()
            invariant
                k <= out@.len(),
                seen <==> exists|j: int| 0 <= j < k && (#[trigger] out@[j])@ == v@,
            decreases out@.len() - k,
        {
            if str_eq(out[k].as_str(), v) {
                seen = true;
            }
            k = k + 1;
        }
        proof {
            if seen {
                let j = choose|j: int| 0 <= j < k && (#[trigger] out@[j])@ == v@;
                assert(strings_view(out@)[j] == v@);
            } else {
                assert forall|j: int| 0 <= j < strings_view(out@).len() implies strings_view(
                    out@,
                )[j] != v@ by {
                    assert(out@[j]@ == strings_view(out@)[j]);
                }
            }
        }
        if !seen {
            let ghost before = out@;
            out.push(values[i].clone());
            proof {
                assert(strings_view(out@) =~= strings_view(before).push(v@));
            }
        }
        i = i + 1;
    }
    proof {
        assert(vs.take(values@.len() as int) =~= vs);
        lemma_dedupe(vs);
        assert forall|a: int, b: int| 0 <= a < b < out@.len() implies (#[trigger] out@[a])@ != (
        #[trigger] out@[b])@ by {
            assert(strings_view(out@)[a] == out@[a]@);
            assert(strings_view(out@)[b] == out@[b]@);
        }
    }
    out
}


/// What a reference usage means: its types, semantic specializations,
/// feature references and direction.
#[derive(Debug, Clone, Default)]
pub struct ReferenceUsageSemantics {
    pub type_refs: Vec<String>,
    pub semantic_specializations: Vec<String>,
    pub subsetted_feature_refs: Vec<String>,
    pub specialized_feature_refs: Vec<String>,
    pub redefined_feature_refs: Vec<String>,
    pub direction: Option<String>,
}

/// The semantics of a reference usage, with strings as characters.
pub struct SemanticsView {
    pub type_refs: Seq<Seq<char>>,
    pub semantic_specializations: Seq<Seq<char>>,
    pub subsetted_feature_refs: Seq<Seq<char>>,
    pub specialized_feature_refs: Seq<Seq<char>>,
    pub redefined_feature_refs: Seq<Seq<char>>,
    pub direction: Option<Seq<char>>,
}

impl View for ReferenceUsageSemantics {
    type V = SemanticsView;

    open spec fn view(&self) -> SemanticsView {
        SemanticsView {
            type_refs: strings_view(self.type_refs@),
            semantic_specializations: strings_view(self.semantic_specializations@),
            subsetted_feature_refs: strings_view(self.subsetted_feature_refs@),
            specialized_feature_refs: strings_view(self.specialized_feature_refs@),
            redefined_feature_refs: strings_view(self.redefined_feature_refs@),
            direction: match self.direction {
                Some(d) => Some(d@),
                None => None,
            },
        }
    }
}

/// The defaults of a usage family for one owner.
#[derive(Debug, Clone)]
pub struct UsageFamilyDefaults {
    pub type_ref: String,
    pub subsetted_feature_refs: Vec<String>,
    pub is_variable: bool,
}

/// The type references of a usage: its type, then its additional types,
/// each once.
pub open spec fn all_type_refs(usage: ResolvedUsage) -> Seq<Seq<char>> {
    dedupe(
        match usage.type_ref {
            Some(t) => seq![t@],
            None => Seq::empty(),
        } + strings_view(usage.additional_type_refs@),
    )
}

/// The type references of a usage, each once.
pub fn usage_all_type_refs(usage: &ResolvedUsage) -> (r: Vec<String>)
    ensures
        strings_view(r@) == all_type_refs(*usage),
{
    let mut refs: Vec<String> = Vec::new();
    match &usage.type_ref {
        Some(t) => {
            refs.push(t.clone());
        },
        None => {},
    }
    let ghost head = strings_view(refs@);
    let mut i: usize = 0;
    while i < usage.additional_type_refs.len()
        invariant
            i <= usage.additional_type_refs@.len(),
            head == match usage.type_ref {
                Some(t) => seq![t@],
                None => Seq::<Seq<char>>::empty(),
            },
            strings_view(refs@) == head + strings_view(usage.additional_type_refs@).take(i as int),
        decreases usage.additional_type_refs@.len() - i,
    {
        let ghost before = strings_view(refs@);
        refs.push(usage.additional_type_refs[i].clone());
        proof {
            assert(strings_view(refs@) =~= before.push(usage.additional_type_refs@[i as int]@));
            assert(strings_view(usage.additional_type_refs@).take(i + 1) =~= strings_view(
                usage.additional_type_refs@,
            ).take(i as int).push(usage.additional_type_refs@[i as int]@));
        }
        i = i + 1;
    }
    assert(strings_view(usage.additional_type_refs@).take(usage.additional_type_refs@.len() as int)
        =~= strings_view(usage.additional_type_refs@));
    dedupe_refs(refs)
}


/// The first lowering rule of `construct` has an elaboration step `rule_id`.
pub open spec fn has_step(v: MappingView, construct: Seq<char>, rule_id: Seq<char>) -> bool {
    match v.rules {
        Some(rs) => match first_rule_for_construct(rs, construct) {
            Some(r) => exists|i: int|
                0 <= i < r.elaborate@.len() && (#[trigger] r.elaborate@[i]).id@ == rule_id,
            None => false,
        },
        None => false,
    }
}

/// Whether the lowering rule of `construct` has the elaboration step
/// `rule_id`.
pub fn has_elaboration_rule(mappings: &MappingBundle, construct: &str, rule_id: &str) -> (r: bool)
    ensures
        r == has_step(mappings@, construct@, rule_id@),
{
    let rule = match mappings.lowering_rule_for_construct(construct) {
        Some(rule) => rule,
        None => {
            return false;
        },
    };
    let mut i: usize = 0;
    while i < rule.elaborate.len()
        invariant
            i <= rule.elaborate@.len(),
            mappings@.rules matches Some(rs) && first_rule_for_construct(rs, construct@) == Some(
                *rule,
            ),
            forall|j: int| 0 <= j < i ==> (#[trigger] rule.elaborate@[j]).id@ != rule_id@,
        decreases rule.elaborate@.len() - i,
    {
        if str_eq(rule.elaborate[i].id.as_str(), rule_id) {
            return true;
        }
        i = i + 1;
    }
    false
}

/// Whether the ends of a connection definition are annotated with their
/// direction: only for connection definitions whose rule asks for it.
pub fn should_annotate_connection_end_direction(mappings: &MappingBundle, definition_construct: &str) -> (r:
    bool)
    ensures
        r == (definition_construct@ == "ConnectionDefinition"@ && has_step(
            mappings@,
            definition_construct@,
            "connection-end-direction"@,
        )),
{
    str_eq(definition_construct, "ConnectionDefinition") && has_elaboration_rule(
        mappings,
        definition_construct,
        "connection-end-direction",
    )
}

} // verus!
