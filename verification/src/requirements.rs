//! The requirement domain: trace records, the requirements table, and the
//! string rules that recognise requirement relations.
use vstd::prelude::*;

use crate::kerml::ast::strings_view;
use crate::text::{contains_str, has_sub, push_char, str_eq};

verus! {

/// A trace from an element to a requirement through a relationship.
#[derive(Debug, Clone, PartialEq, Eq)]
pub struct RequirementTrace {
    pub relationship: String,
    pub source: String,
    pub target: String,
}

/// The requirements table: title, columns, one row per requirement, and
/// warnings.
#[derive(Debug, Clone, PartialEq, Eq)]
pub struct RequirementTableViewDto {
    pub title: String,
    pub columns: Vec<RequirementTableColumnDto>,
    pub rows: Vec<RequirementTableRowDto>,
    pub warnings: Vec<String>,
}

/// A column of the requirements table.
#[derive(Debug, Clone, PartialEq, Eq)]
pub struct RequirementTableColumnDto {
    pub key: String,
    pub label: String,
}

/// A row of the requirements table.
#[derive(Debug, Clone, PartialEq, Eq)]
pub struct RequirementTableRowDto {
    pub id: String,
    pub name: Option<String>,
    pub text: Option<String>,
    pub owner: Option<String>,
    pub satisfied_by: Vec<String>,
    pub verified_by: Vec<String>,
    pub source: Option<RequirementSourceDto>,
}

/// Where a requirement is written.
#[derive(Debug, Clone, PartialEq, Eq)]
pub struct RequirementSourceDto {
    pub file: Option<String>,
    pub start_line: Option<u64>,
    pub end_line: Option<u64>,
}

/// A failure of a requirement query, with its message.
#[derive(Debug, Clone, PartialEq, Eq)]
pub struct RequirementsError {
    message: String,
}

impl RequirementsError {
    /// The message of this error.
    pub closed spec fn message_view(&self) -> Seq<char> {
        self.message@
    }

    /// An error with `message`.
    pub fn new(message: &str) -> (e: Self)
        ensures
            e.message_view() == message@,
    {
        RequirementsError { message: String::from_str(message) }
    }

    /// The message, as the error displays it.
    pub fn to_display_string(&self) -> (s: String)
        ensures
            s@ == self.message_view(),
    {
        self.message.clone()
    }
}

/// `c` in lower case if it is an ASCII upper-case letter.
pub open spec fn ascii_lower(c: char) -> char {
    if 'A' <= c && c <= 'Z' {
        ((c as u32) + 32) as char
    } else {
        c
    }
}

/// `s` with its ASCII letters in lower case.
pub open spec fn lower(s: Seq<char>) -> Seq<char> {
    s.map_values(|c: char| ascii_lower(c))
}

/// `str::to_ascii_lowercase`.
pub fn to_ascii_lowercase(s: &str) -> (r: String)
    ensures
        r@ == lower(s@),
{
    let n = s.unicode_len();
    let mut out = String::new();
    let mut i: usize = 0;
    while i < n
        invariant
            n == s@.len(),
            i <= n,
            out@ == lower(s@.take(i as int)),
        decreases n - i,
    {
        let c = s.get_char(i);
        let l = if 'A' <= c && c <= 'Z' {
            ((c as u8) + 32) as char
        } else {
            c
        };
        push_char(&mut out, l);
        assert(lower(s@.take(i + 1)) =~= lower(s@.take(i as int)).push(ascii_lower(c)));
        i = i + 1;
    }
    assert(s@.take(n as int) =~= s@);
    out
}

/// A relation that traces to a requirement: one that, in lower case,
/// mentions satisfying, verifying or refining.
pub open spec fn trace_relation(relation: Seq<char>) -> bool {
    let l = lower(relation);
    ||| has_sub(l, "satisfy"@)
    ||| has_sub(l, "satisfied"@)
    ||| has_sub(l, "verify"@)
    ||| has_sub(l, "verified"@)
    ||| has_sub(l, "refine"@)
    ||| has_sub(l, "refined"@)
}

/// Whether `relation` traces to a requirement.
pub fn is_requirement_trace_relation(relation: &str) -> (r: bool)
    ensures
        r == trace_relation(relation@),
{
    let lowered = to_ascii_lowercase(relation);
    let l = lowered.as_str();
    contains_str(l, "satisfy") || contains_str(l, "satisfied") || contains_str(l, "verify")
        || contains_str(l, "verified") || contains_str(l, "refine") || contains_str(l, "refined")
}

/// A table column with `key` and `label`.
pub fn column(key: &str, label: &str) -> (c: RequirementTableColumnDto)
    ensures
        c.key@ == key@,
        c.label@ == label@,
{
    RequirementTableColumnDto { key: String::from_str(key), label: String::from_str(label) }
}

/// Appends `value` to `values` unless an equal string is already there.
pub fn push_unique(values: &mut Vec<String>, value: String)
    ensures
        strings_view(final(values)@) == if strings_view(old(values)@).contains(value@) {
            strings_view(old(values)@)
        } else {
            strings_view(old(values)@).push(value@)
        },
{
    let mut i: usize = 0;
    let n = values.len();
    while i < n
        invariant
            n == values@.len(),
            i <= n,
            forall|j: int| 0 <= j < i ==> (#[trigger] values@[j])@ != value@,
        decreases n - i,
    {
        if str_eq(values[i].as_str(), value.as_str()) {
            assert(strings_view(values@)[i as int] == value@);
            return;
        }
        i = i + 1;
    }
    let ghost before = values@;
    let ghost vv = value@;
    values.push(value);
    proof {
        assert(!strings_view(before).contains(vv)) by {
            if strings_view(before).contains(vv) {
                let j = choose|j: int| 0 <= j < before.len() && strings_view(before)[j] == vv;
                assert(before[j]@ == vv);
            }
        }
        assert(strings_view(values@) =~= strings_view(before).push(vv));
    }
}

} // verus!
