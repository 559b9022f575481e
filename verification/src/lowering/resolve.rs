//! Resolution helpers that pick a target from string indexes: library
//! fallbacks, unique suffix matches and scoped candidates.
use vstd::prelude::*;

use crate::kerml::ast::{QualifiedName, QualifiedNameView, strings_view};
use crate::lowering::usage_semantics::copy_strings;
use crate::strmap::StrMap;
use crate::text::{
    after_last, after_last_str, concat2, concat3, contains_char, contains_str, ends_with, has_sub,
    is_prefix, is_suffix, last_index, lemma_last_index, occurs_at, rsplit_once_str, starts_with, strip_prefix_str,
    str_eq,
};

verus! {

/// The library feature a base feature name falls back to, if it has one.
pub open spec fn base_feature_target(name: Seq<char>) -> Option<Seq<char>> {
    if name == "mRefs"@ {
        Some("MeasurementReferences::TensorMeasurementReference::mRefs"@)
    } else if name == "num"@ {
        Some("Quantities::TensorQuantityValue::num"@)
    } else if name == "planeAngle"@ {
        Some("ISQSpaceTime::angularMeasure"@)
    } else if name == "quantityPowerFactors"@ {
        Some("Quantities::QuantityDimension::quantityPowerFactors"@)
    } else if name == "coordinateFrame"@ {
        Some("SpatialItems::SpatialItem::coordinateFrame"@)
    } else if name == "shape"@ {
        Some("Items::Item::shape"@)
    } else if name == "elements"@ {
        Some("Occurrences::Occurrence::differencesOf::elements"@)
    } else if name == "radius"@ {
        Some("ShapeItems::CircularCylinder::radius"@)
    } else if name == "transformation"@ {
        Some("MeasurementReferences::CoordinateFrame::transformation"@)
    } else {
        None
    }
}

/// Whether `v` holds a string equal to `x`.
fn holds(v: &[String], x: &str) -> (r: bool)
    ensures
        r == strings_view(v@).contains(x@),
{
    let mut i: usize = 0;
    while i < v.len()
        invariant
            i <= v@.len(),
            forall|j: int| 0 <= j < i ==> (#[trigger] v@[j])@ != x@,
        decreases v@.len() - i,
    {
        if str_eq(v[i].as_str(), x) {
            assert(strings_view(v@)[i as int] == x@);
            return true;
        }
        i = i + 1;
    }
    false
}

/// The library feature a base feature `name` falls back to, when the
/// library has it.
pub fn semantic_base_feature_fallback(name: &str, stdlib_ids: &[String]) -> (r: Option<String>)
    ensures
        match r {
            Some(t) => base_feature_target(name@) == Some(t@) && strings_view(stdlib_ids@).contains(t@),
            None => base_feature_target(name@) matches Some(t) ==> !strings_view(
                stdlib_ids@,
            ).contains(t),
        },
{
    let target: &str = if str_eq(name, "mRefs") {
        "MeasurementReferences::TensorMeasurementReference::mRefs"
    } else if str_eq(name, "num") {
        "Quantities::TensorQuantityValue::num"
    } else if str_eq(name, "planeAngle") {
        "ISQSpaceTime::angularMeasure"
    } else if str_eq(name, "quantityPowerFactors") {
        "Quantities::QuantityDimension::quantityPowerFactors"
    } else if str_eq(name, "coordinateFrame") {
        "SpatialItems::SpatialItem::coordinateFrame"
    } else if str_eq(name, "shape") {
        "Items::Item::shape"
    } else if str_eq(name, "elements") {
        "Occurrences::Occurrence::differencesOf::elements"
    } else if str_eq(name, "radius") {
        "ShapeItems::CircularCylinder::radius"
    } else if str_eq(name, "transformation") {
        "MeasurementReferences::CoordinateFrame::transformation"
    } else {
        return None;
    };
    if holds(stdlib_ids, target) {
        Some(String::from_str(target))
    } else {
        None
    }
}

/// The only entry of `ms`, if it has exactly one.
pub open spec fn unique(ms: Seq<Seq<char>>) -> Option<Seq<char>> {
    if ms.len() == 1 {
        Some(ms[0])
    } else {
        None
    }
}

/// `q` is `dotted_name` or ends with `.dotted_name`.
pub open spec fn dotted_match(q: Seq<char>, dotted_name: Seq<char>) -> bool {
    q == dotted_name || is_suffix("."@ + dotted_name, q)
}

/// The qualified names in a feature index, owner by owner, each owner's
/// features in name order.
pub open spec fn index_names(idx: Seq<(Seq<char>, StrMap<String>)>) -> Seq<Seq<char>>
    decreases idx.len(),
{
    if idx.len() == 0 {
        Seq::empty()
    } else {
        index_names(idx.drop_last()) + idx.last().1@.map_values(|e: (Seq<char>, String)| e.1@)
    }
}

/// The entries of `qs` that match `dotted_name` and are not `excluded`.
pub open spec fn matching(qs: Seq<Seq<char>>, dotted_name: Seq<char>, excluded: Option<Seq<char>>) -> Seq<
    Seq<char>,
>
    decreases qs.len(),
{
    if qs.len() == 0 {
        Seq::empty()
    } else {
        let q = qs.last();
        matching(qs.drop_last(), dotted_name, excluded) + if dotted_match(q, dotted_name) && match excluded {
            Some(x) => q != x,
            None => true,
        } {
            seq![q]
        } else {
            Seq::empty()
        }
    }
}

proof fn lemma_matching_append(a: Seq<Seq<char>>, b: Seq<Seq<char>>, d: Seq<char>, x: Option<Seq<char>>)
    ensures
        matching(a + b, d, x) == matching(a, d, x) + matching(b, d, x),
    decreases b.len(),
{
    if b.len() == 0 {
        assert(a + b =~= a);
    } else {
        assert((a + b).drop_last() =~= a + b.drop_last());
        lemma_matching_append(a, b.drop_last(), d, x);
    }
}

/// The names in `idx` that match `dotted_name` and are not `excluded`.
pub(crate) fn collect_matches(
    idx: &StrMap<StrMap<String>>,
    dotted_name: &str,
    excluded: Option<&str>,
) -> (m: Vec<String>)
    ensures
        strings_view(m@) == matching(
            index_names(idx@),
            dotted_name@,
            match excluded {
                Some(x) => Some(x@),
                None => None,
            },
        ),
{
    let ghost ex = match excluded {
        Some(x) => Some(x@),
        None => None,
    };
    let suffix = concat2(".", dotted_name);
    let mut m: Vec<String> = Vec::new();
    let n = idx.len();
    let mut i: usize = 0;
    while i < n
        invariant
            n == idx@.len(),
            i <= n,
            suffix@ == "."@ + dotted_name@,
            ex == match excluded {
                Some(x) => Some(x@),
                None => None,
            },
            strings_view(m@) == matching(index_names(idx@.take(i as int)), dotted_name@, ex),
        decreases n - i,
    {
        let inner = idx.value_at(i);
        let ghost inner_names = inner@.map_values(|e: (Seq<char>, String)| e.1@);
        let ghost start = strings_view(m@);
        let k_n = inner.len();
        let mut k: usize = 0;
        while k < k_n
            invariant
                k_n == inner@.len(),
                k <= k_n,
                suffix@ == "."@ + dotted_name@,
                inner_names == inner@.map_values(|e: (Seq<char>, String)| e.1@),
                ex == match excluded {
                    Some(x) => Some(x@),
                    None => None,
                },
                strings_view(m@) == start + matching(inner_names.take(k as int), dotted_name@, ex),
            decreases k_n - k,
        {
            let q = inner.value_at(k).as_str();
            let keep = (str_eq(q, dotted_name) || ends_with(q, suffix.as_str())) && match excluded {
                Some(x) => !str_eq(q, x),
                None => true,
            };
            let ghost before = strings_view(m@);
            if keep {
                m.push(inner.value_at(k).clone());
            }
            proof {
                assert(inner_names.take(k + 1).drop_last() =~= inner_names.take(k as int));
                assert(inner_names.take(k + 1).last() == q@);
                if keep {
                    assert(strings_view(m@) =~= before.push(q@));
                } else {
                    assert(strings_view(m@) =~= before);
                }
            }
            k = k + 1;
        }
        proof {
            assert(inner_names.take(k_n as int) =~= inner_names);
            let t = idx@.take(i + 1);
            assert(t.drop_last() =~= idx@.take(i as int));
            assert(t.last() == idx@[i as int]);
            assert(index_names(t) == index_names(idx@.take(i as int)) + inner_names);
            lemma_matching_append(index_names(idx@.take(i as int)), inner_names, dotted_name@, ex);
        }
        i = i + 1;
    }
    assert(idx@.take(n as int) =~= idx@);
    m
}

/// The one feature in the index whose qualified name is, or ends with,
/// `dotted_name`.
pub fn unique_feature_match(dotted_name: &str, local_feature_index: &StrMap<StrMap<String>>) -> (r:
    Option<String>)
    ensures
        opt_str_view(r) == unique(matching(index_names(local_feature_index@), dotted_name@, None)),
{
    let m = collect_matches(local_feature_index, dotted_name, None);
    if m.len() == 1 {
        assert(strings_view(m@)[0] == m@[0]@);
        Some(m[0].clone())
    } else {
        None
    }
}

/// The one feature in the index, other than `excluded_qualified_name`,
/// whose qualified name is, or ends with, `dotted_name`.
pub fn unique_feature_match_excluding(
    dotted_name: &str,
    local_feature_index: &StrMap<StrMap<String>>,
    excluded_qualified_name: &str,
) -> (r: Option<String>)
    ensures
        opt_str_view(r) == unique(
            matching(
                index_names(local_feature_index@),
                dotted_name@,
                Some(excluded_qualified_name@),
            ),
        ),
{
    let m = collect_matches(local_feature_index, dotted_name, Some(excluded_qualified_name));
    if m.len() == 1 {
        assert(strings_view(m@)[0] == m@[0]@);
        Some(m[0].clone())
    } else {
        None
    }
}

/// The view of an optional string.
pub open spec fn opt_str_view(o: Option<String>) -> Option<Seq<char>> {
    match o {
        Some(s) => Some(s@),
        None => None,
    }
}

/// The library action that usages of `construct` belong to, if any.
pub open spec fn stdlib_owner_of(construct: Seq<char>) -> Option<Seq<char>> {
    if construct == "SendUsage"@ {
        Some("Actions::SendAction"@)
    } else if construct == "AcceptActionUsage"@ {
        Some("Actions::AcceptAction"@)
    } else {
        None
    }
}

/// The library action that usages of `construct` belong to, if any.
pub fn usage_construct_stdlib_owner(construct: &str) -> (r: Option<&'static str>)
    ensures
        match r {
            Some(o) => stdlib_owner_of(construct@) == Some(o@),
            None => stdlib_owner_of(construct@) is None,
        },
{
    if str_eq(construct, "SendUsage") {
        Some("Actions::SendAction")
    } else if str_eq(construct, "AcceptActionUsage") {
        Some("Actions::AcceptAction")
    } else {
        None
    }
}

/// The element id of the feature with qualified name `qualified_name`.
pub fn feature_id_from_qualified_name(qualified_name: &str) -> (r: String)
    ensures
        r@ == "feature."@ + qualified_name@,
{
    concat2("feature.", qualified_name)
}

/// `scope`, then each enclosing scope after its last `.`, down to the
/// outermost.
pub open spec fn scopes_from(scope: Seq<char>) -> Seq<Seq<char>>
    decreases scope.len(),
{
    match last_index(scope, "."@) {
        Some(i) => if 0 <= i < scope.len() {
            seq![scope] + scopes_from(scope.take(i))
        } else {
            seq![scope]
        },
        None => seq![scope],
    }
}

/// Where a reference written in `owner` may point: as qualified if it
/// contains `.`, else under each scope from `owner` outwards, then as
/// written.
pub open spec fn reference_candidates(target: Seq<char>, owner: Seq<char>) -> Seq<Seq<char>> {
    if target.contains('.') {
        seq![target]
    } else {
        scopes_from(owner).map_values(|s: Seq<char>| s + "."@ + target).push(target)
    }
}

/// The qualified names `target_name` may denote from within
/// `owner_qualified_name`, innermost scope first.
pub fn scoped_reference_candidates(target_name: &str, owner_qualified_name: &str) -> (r: Vec<String>)
    ensures
        strings_view(r@) == reference_candidates(target_name@, owner_qualified_name@),
{
    if contains_char(target_name, '.') {
        let mut v: Vec<String> = Vec::new();
        v.push(String::from_str(target_name));
        assert(strings_view(v@) =~= seq![target_name@]);
        return v;
    }
    proof {
        reveal_strlit(".");
    }
    let ghost want = scopes_from(owner_qualified_name@).map_values(
        |s: Seq<char>| s + "."@ + target_name@,
    );
    let mut candidates: Vec<String> = Vec::new();
    let mut scope = String::from_str(owner_qualified_name);
    assert(strings_view(candidates@) =~= Seq::<Seq<char>>::empty());
    loop
        invariant_except_break
            strings_view(candidates@) + scopes_from(scope@).map_values(
                |s: Seq<char>| s + "."@ + target_name@,
            ) == want,
        ensures
            strings_view(candidates@) == want,
        decreases scope@.len(),
    {
        let ghost before = strings_view(candidates@);
        let ghost chain = scopes_from(scope@);
        candidates.push(concat3(scope.as_str(), ".", target_name));
        proof {
            lemma_last_index(scope@, "."@);
            assert(chain[0] == scope@);
        }
        match rsplit_once_str(scope.as_str(), ".") {
            Some((parent, _)) => {
                proof {
                    reveal_strlit(".");
                    let i = last_index(scope@, "."@)->Some_0;
                    assert(occurs_at(scope@, "."@, i));
                    assert(parent@ == scope@.take(i));
                    assert(chain == seq![scope@] + scopes_from(parent@));
                    let f = |s: Seq<char>| s + "."@ + target_name@;
                    assert(chain.map_values(f) =~= seq![f(scope@)] + scopes_from(parent@).map_values(f));
                    assert(strings_view(candidates@) =~= before.push(f(scope@)));
                    assert(strings_view(candidates@) + scopes_from(parent@).map_values(f) =~= before
                        + chain.map_values(f));
                }
                scope = parent;
            },
            None => {
                proof {
                    let f = |s: Seq<char>| s + "."@ + target_name@;
                    assert(chain == seq![scope@]);
                    assert(strings_view(candidates@) =~= before + chain.map_values(f));
                }
                break;
            },
        }
    }
    let ghost before = strings_view(candidates@);
    candidates.push(String::from_str(target_name));
    assert(strings_view(candidates@) =~= before.push(target_name@));
    candidates
}

/// A feature target as an element id: kept if it already is one or is a
/// library path, else made the id of that feature.
pub open spec fn feature_target_id(target: Seq<char>) -> Seq<char> {
    if is_prefix("feature."@, target) || has_sub(target, "::"@) {
        target
    } else {
        "feature."@ + target
    }
}

/// The element id a feature target denotes.
pub fn normalize_feature_target_id(target: &str) -> (r: String)
    ensures
        r@ == feature_target_id(target@),
{
    if starts_with(target, "feature.") || contains_str(target, "::") {
        String::from_str(target)
    } else {
        feature_id_from_qualified_name(target)
    }
}

/// The ids among the first `n` whose last `::` segment is `name`.
pub open spec fn suffix_matches_upto(ids: Seq<Seq<char>>, name: Seq<char>, n: int) -> Seq<Seq<char>>
    decreases n,
{
    if n <= 0 {
        Seq::empty()
    } else {
        suffix_matches_upto(ids, name, n - 1) + if after_last(ids[n - 1], "::"@) == name {
            seq![ids[n - 1]]
        } else {
            Seq::empty()
        }
    }
}

/// The one library id whose last `::` segment is `name`.
pub fn unique_suffix_match(name: &str, stdlib_ids: &[String]) -> (r: Option<String>)
    ensures
        opt_str_view(r) == unique(
            suffix_matches_upto(strings_view(stdlib_ids@), name@, stdlib_ids@.len() as int),
        ),
{
    let ghost ids = strings_view(stdlib_ids@);
    let mut m: Vec<String> = Vec::new();
    let mut i: usize = 0;
    while i < stdlib_ids.len()
        invariant
            i <= stdlib_ids@.len(),
            ids == strings_view(stdlib_ids@),
            strings_view(m@) == suffix_matches_upto(ids, name@, i as int),
        decreases stdlib_ids@.len() - i,
    {
        let tail = after_last_str(stdlib_ids[i].as_str(), "::");
        let ghost before = strings_view(m@);
        if str_eq(tail.as_str(), name) {
            m.push(stdlib_ids[i].clone());
            assert(strings_view(m@) =~= before.push(ids[i as int]));
        }
        i = i + 1;
    }
    if m.len() == 1 {
        assert(strings_view(m@)[0] == m@[0]@);
        Some(m[0].clone())
    } else {
        None
    }
}

/// The values of the definitions among the first `n` whose key is, or
/// ends with, `dotted_name`.
pub open spec fn local_matches_upto(defs: Seq<(Seq<char>, String)>, dotted_name: Seq<char>, n: int) -> Seq<
    Seq<char>,
>
    decreases n,
{
    if n <= 0 {
        Seq::empty()
    } else {
        local_matches_upto(defs, dotted_name, n - 1) + if dotted_match(defs[n - 1].0, dotted_name) {
            seq![defs[n - 1].1@]
        } else {
            Seq::empty()
        }
    }
}

/// The one local definition whose qualified name is, or ends with,
/// `dotted_name`.
pub fn unique_local_suffix_match(dotted_name: &str, local_definitions: &StrMap<String>) -> (r: Option<
    String,
>)
    ensures
        opt_str_view(r) == unique(
            local_matches_upto(local_definitions@, dotted_name@, local_definitions@.len() as int),
        ),
{
    let suffix = concat2(".", dotted_name);
    let mut m: Vec<String> = Vec::new();
    let n = local_definitions.len();
    let mut i: usize = 0;
    while i < n
        invariant
            n == local_definitions@.len(),
            i <= n,
            suffix@ == "."@ + dotted_name@,
            strings_view(m@) == local_matches_upto(local_definitions@, dotted_name@, i as int),
        decreases n - i,
    {
        let key = local_definitions.key_at(i).as_str();
        let ghost before = strings_view(m@);
        if str_eq(key, dotted_name) || ends_with(key, suffix.as_str()) {
            m.push(local_definitions.value_at(i).clone());
            assert(strings_view(m@) =~= before.push(local_definitions@[i as int].1@));
        }
        i = i + 1;
    }
    if m.len() == 1 {
        assert(strings_view(m@)[0] == m@[0]@);
        Some(m[0].clone())
    } else {
        None
    }
}


// ------------------------------------------------------------ conjugated types

/// The name a conjugated type reference `~T` stands for: the same name with
/// the `~` taken off its first segment, when something is left of it.
pub open spec fn unconjugated(name: QualifiedNameView) -> Option<QualifiedNameView> {
    if name.segments.len() > 0 && is_prefix("~"@, name.segments[0]) && name.segments[0].len() > 1 {
        Some(QualifiedNameView {
            segments: name.segments.update(0, name.segments[0].skip(1)),
            span: name.span,
        })
    } else {
        None
    }
}

/// The unconjugated form of a type reference written `~T`.
pub fn unconjugated_type_name(name: &QualifiedName) -> (r: Option<QualifiedName>)
    ensures
        match r {
            Some(q) => unconjugated(name@) == Some(q@),
            None => unconjugated(name@) is None,
        },
{
    proof {
        reveal_strlit("~");
    }
    if name.segments.len() == 0 {
        return None;
    }
    match strip_prefix_str(name.segments[0].as_str(), "~") {
        Some(stripped) => {
            if stripped.unicode_len() == 0 {
                return None;
            }
            let mut segments = copy_strings(&name.segments);
            segments.set(0, stripped);
            let r = QualifiedName { segments, span: name.span };
            proof {
                assert(r@.segments =~= name@.segments.update(0, name@.segments[0].skip(1)));
            }
            Some(r)
        },
        None => None,
    }
}

} // verus!
