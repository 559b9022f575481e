//! String rules of the simulation front end: labels, kinds, identifiers and
//! how an activity reference finds its node.
use vstd::prelude::*;

use crate::kerml::ast::strings_view;
use crate::lowering::elaborate::dedupe;
use crate::requirements::{lower, to_ascii_lowercase};
use crate::strmap::{StrSet, has_key};
use crate::text::{
    after_last, after_last_str, before_first, before_first_str, concat2, ends_with, is_suffix,
    push_char, replace_all, replace_str, str_eq,
};

verus! {

/// The last position at or before `i` holding `.` or `:`.
pub open spec fn last_sep_upto(s: Seq<char>, i: int) -> Option<int>
    decreases i + 1,
{
    if i < 0 {
        None
    } else if s[i] == '.' || s[i] == ':' {
        Some(i)
    } else {
        last_sep_upto(s, i - 1)
    }
}

/// The label of a feature id: what follows its last `.` or `:`, unless
/// that is empty.
pub open spec fn feature_label(id: Seq<char>) -> Seq<char> {
    let tail = match last_sep_upto(id, id.len() - 1) {
        Some(i) => id.skip(i + 1),
        None => id,
    };
    if tail.len() == 0 {
        id
    } else {
        tail
    }
}

proof fn lemma_last_sep_upto(s: Seq<char>, i: int)
    requires
        i < s.len(),
    ensures
        last_sep_upto(s, i) matches Some(k) ==> 0 <= k <= i,
    decreases i + 1,
{
    if i >= 0 && !(s[i] == '.' || s[i] == ':') {
        lemma_last_sep_upto(s, i - 1);
    }
}

/// The label shown for a simulation feature.
pub fn label_for_simulation_feature(feature_id: &str) -> (r: String)
    ensures
        r@ == feature_label(feature_id@),
{
    let n = feature_id.unicode_len();
    let mut i: usize = n;
    // `i` counts the positions not yet looked at, from the end.
    while i > 0 && !(feature_id.get_char(i - 1) == '.' || feature_id.get_char(i - 1) == ':')
        invariant
            n == feature_id@.len(),
            i <= n,
            last_sep_upto(feature_id@, n - 1) == last_sep_upto(feature_id@, i - 1),
        decreases i,
    {
        i = i - 1;
    }
    proof {
        lemma_last_sep_upto(feature_id@, n - 1);
    }
    if i == 0 {
        return String::from_str(feature_id);
    }
    let tail = feature_id.substring_char(i, n);
    if i == n {
        String::from_str(feature_id)
    } else {
        assert(tail@ =~= feature_id@.skip(i as int));
        String::from_str(tail)
    }
}

/// `id` ends with `.` followed by `part`.
pub open spec fn dotted_tail(id: Seq<char>, part: Seq<char>) -> bool {
    is_suffix("."@ + part, id)
}

/// The first node id, in order, that ends with `.reference`, `.normalized`,
/// `.first` or `.last`.
pub open spec fn first_tail_match(
    ids: Seq<Seq<char>>,
    reference: Seq<char>,
    normalized: Seq<char>,
    first: Seq<char>,
    last: Seq<char>,
) -> Option<Seq<char>>
    decreases ids.len(),
{
    if ids.len() == 0 {
        None
    } else if dotted_tail(ids[0], reference) || dotted_tail(ids[0], normalized) || dotted_tail(
        ids[0],
        first,
    ) || dotted_tail(ids[0], last) {
        Some(ids[0])
    } else {
        first_tail_match(ids.drop_first(), reference, normalized, first, last)
    }
}

/// The node an activity reference names: itself, its `.`-separated form,
/// or the first node id that ends with one of those or with its first or
/// last segment.
pub open spec fn activity_reference(reference: Seq<char>, ids: Seq<Seq<char>>) -> Option<Seq<char>> {
    let normalized = replace_all(reference, "::"@, "."@);
    if ids.contains(reference) {
        Some(reference)
    } else if ids.contains(normalized) {
        Some(normalized)
    } else {
        first_tail_match(
            ids,
            reference,
            normalized,
            before_first(normalized, "."@),
            after_last(normalized, "."@),
        )
    }
}

/// The ids of a set, in order.
pub open spec fn set_ids(s: Seq<(Seq<char>, ())>) -> Seq<Seq<char>> {
    s.map_values(|e: (Seq<char>, ())| e.0)
}

/// The view of an optional string.
pub open spec fn opt_string(o: Option<String>) -> Option<Seq<char>> {
    match o {
        Some(s) => Some(s@),
        None => None,
    }
}

/// Resolves an activity reference to one of `node_ids`.
pub fn resolve_activity_reference(reference: &str, node_ids: &StrSet) -> (r: Option<String>)
    ensures
        opt_string(r) == activity_reference(reference@, set_ids(node_ids@)),
{
    let ghost ids = set_ids(node_ids@);
    proof {
        assert(forall|x: Seq<char>| has_key(node_ids@, x) <==> ids.contains(x)) by {
            assert forall|x: Seq<char>| has_key(node_ids@, x) implies ids.contains(x) by {
                let i = choose|i: int| 0 <= i < node_ids@.len() && (#[trigger] node_ids@[i]).0 == x;
                assert(ids[i] == x);
            }
            assert forall|x: Seq<char>| ids.contains(x) implies has_key(node_ids@, x) by {
                let i = choose|i: int| 0 <= i < ids.len() && ids[i] == x;
                assert(node_ids@[i].0 == x);
            }
        }
        reveal_strlit("::");
        reveal_strlit(".");
    }
    if node_ids.contains_key(reference) {
        return Some(String::from_str(reference));
    }
    let normalized = replace_str(reference, "::", ".");
    if node_ids.contains_key(normalized.as_str()) {
        return Some(normalized);
    }
    let first = before_first_str(normalized.as_str(), ".");
    let last = after_last_str(normalized.as_str(), ".");
    let s1 = concat2(".", reference);
    let s2 = concat2(".", normalized.as_str());
    let s3 = concat2(".", first.as_str());
    let s4 = concat2(".", last.as_str());
    let n = node_ids.len();
    let mut i: usize = 0;
    assert(ids.skip(0) =~= ids);
    while i < n
        invariant
            n == node_ids@.len(),
            i <= n,
            ids == set_ids(node_ids@),
            !ids.contains(reference@),
            !ids.contains(normalized@),
            normalized@ == replace_all(reference@, "::"@, "."@),
            first@ == before_first(normalized@, "."@),
            last@ == after_last(normalized@, "."@),
            s1@ == "."@ + reference@,
            s2@ == "."@ + normalized@,
            s3@ == "."@ + first@,
            s4@ == "."@ + last@,
            first_tail_match(ids, reference@, normalized@, first@, last@) == first_tail_match(
                ids.skip(i as int),
                reference@,
                normalized@,
                first@,
                last@,
            ),
        decreases n - i,
    {
        let id = node_ids.key_at(i).as_str();
        proof {
            assert(ids.skip(i as int)[0] == id@);
            assert(ids.skip(i as int).drop_first() =~= ids.skip(i + 1));
        }
        if ends_with(id, s1.as_str()) || ends_with(id, s2.as_str()) || ends_with(id, s3.as_str())
            || ends_with(id, s4.as_str()) {
            return Some(String::from_str(id));
        }
        i = i + 1;
    }
    None
}

/// The characters dropped from a kind before it is compared.
pub open spec fn kind_separator(c: char) -> bool {
    c == ':' || c == '.' || c == ' ' || c == '_'
}

/// A kind without separators, in lower case.
pub open spec fn canonical(kind: Seq<char>) -> Seq<char>
    decreases kind.len(),
{
    if kind.len() == 0 {
        kind
    } else {
        canonical(kind.drop_last()) + if kind_separator(kind.last()) {
            Seq::empty()
        } else {
            seq![crate::requirements::ascii_lower(kind.last())]
        }
    }
}

/// A kind without `:`, `.`, spaces and `_`, in ASCII lower case.
pub fn canonical_kind(kind: &str) -> (r: String)
    ensures
        r@ == canonical(kind@),
{
    let n = kind.unicode_len();
    let mut out = String::new();
    let mut i: usize = 0;
    while i < n
        invariant
            n == kind@.len(),
            i <= n,
            out@ == canonical(kind@.take(i as int)),
        decreases n - i,
    {
        let c = kind.get_char(i);
        proof {
            assert(kind@.take(i + 1).drop_last() =~= kind@.take(i as int));
            assert(kind@.take(i + 1).last() == c);
        }
        if !(c == ':' || c == '.' || c == ' ' || c == '_') {
            let l = if 'A' <= c && c <= 'Z' {
                ((c as u8) + 32) as char
            } else {
                c
            };
            push_char(&mut out, l);
        }
        proof {
            assert(out@ =~= canonical(kind@.take(i + 1)));
        }
        i = i + 1;
    }
    assert(kind@.take(n as int) =~= kind@);
    out
}

/// The strings with repeats dropped, first occurrences kept in order.
pub fn dedup_strings(values: Vec<String>) -> (r: Vec<String>)
    ensures
        strings_view(r@) == dedupe(strings_view(values@)),
        forall|x: Seq<char>| #[trigger] strings_view(r@).contains(x) <==> strings_view(values@).contains(x),
        forall|i: int, j: int| 0 <= i < j < r@.len() ==> (#[trigger] r@[i])@ != (#[trigger] r@[j])@,
{
    crate::lowering::elaborate::dedupe_refs(values)
}

/// The characters an identifier keeps.
pub open spec fn identifier_char(c: char) -> bool {
    ('a' <= c && c <= 'z') || ('A' <= c && c <= 'Z') || ('0' <= c && c <= '9') || c == '.' || c
        == '_' || c == '-'
}

/// `value` with every other character replaced by `_`, or `unnamed` if it
/// is empty.
pub open spec fn sanitized(value: Seq<char>) -> Seq<char> {
    if value.len() == 0 {
        "unnamed"@
    } else {
        value.map_values(|c: char| if identifier_char(c) { c } else { '_' })
    }
}

/// A usable identifier made from `value`.
pub fn sanitize_identifier(value: &str) -> (r: String)
    ensures
        r@ == sanitized(value@),
{
    let n = value.unicode_len();
    let mut out = String::new();
    let mut i: usize = 0;
    while i < n
        invariant
            n == value@.len(),
            i <= n,
            out@ == value@.take(i as int).map_values(
                |c: char| if identifier_char(c) { c } else { '_' },
            ),
        decreases n - i,
    {
        let c = value.get_char(i);
        let keep = ('a' <= c && c <= 'z') || ('A' <= c && c <= 'Z') || ('0' <= c && c <= '9') || c
            == '.' || c == '_' || c == '-';
        if keep {
            push_char(&mut out, c);
        } else {
            push_char(&mut out, '_');
        }
        assert(value@.take(i + 1).map_values(|c: char| if identifier_char(c) { c } else { '_' })
            =~= value@.take(i as int).map_values(
            |c: char| if identifier_char(c) { c } else { '_' },
        ).push(if identifier_char(c) { c } else { '_' }));
        i = i + 1;
    }
    if n == 0 {
        return String::from_str("unnamed");
    }
    assert(value@.take(n as int) =~= value@);
    out
}

} // verus!
