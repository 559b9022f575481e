//! The KerML grammar over token sequences, stated as spec functions.
//!
//! Each function reads the tokens from a position `i` and gives what the
//! parser makes of them: the texts it collects and the position where it
//! stops, or the position and message of the token it rejects.
use vstd::prelude::*;

use crate::kerml::ast::QualifiedNameView;
use crate::kerml::token::{Token, TokenKind, ident_text, is_ident, kind_tag, spec_merge_span};

verus! {

/// A parse error: the position of the offending token and the message.
pub type SpecError = (int, Seq<char>);

/// `i` is a position of `t`.
pub open spec fn in_range(t: Seq<Token>, i: int) -> bool {
    0 <= i < t.len()
}

/// Some token at or after `i` is the end-of-input token.
pub open spec fn has_eof_from(t: Seq<Token>, i: int) -> bool {
    exists|e: int| i <= e < t.len() && (#[trigger] t[e]).kind is Eof
}

/// Where the cursor goes when it advances from `i`: it stays on the
/// end-of-input token.
pub open spec fn next_pos(t: Seq<Token>, i: int) -> int {
    if t[i].kind is Eof {
        i
    } else {
        i + 1
    }
}

/// `n - 1`, not going below zero.
pub open spec fn sat_dec(n: nat) -> nat {
    if n == 0 {
        0
    } else {
        (n - 1) as nat
    }
}

// ------------------------------------------------------------ keywords

/// Keywords that introduce a classifier-like definition.
pub open spec fn spec_is_definition_keyword(v: Seq<char>) -> bool {
    ||| v == "classifier"@
    ||| v == "class"@
    ||| v == "struct"@
    ||| v == "datatype"@
    ||| v == "behavior"@
    ||| v == "function"@
    ||| v == "predicate"@
    ||| v == "interaction"@
    ||| v == "association"@
    ||| v == "assoc"@
    ||| v == "metaclass"@
}

/// Modifier keywords that may precede a declaration.
pub open spec fn spec_is_modifier(v: Seq<char>) -> bool {
    ||| v == "public"@
    ||| v == "private"@
    ||| v == "protected"@
    ||| v == "library"@
    ||| v == "abstract"@
    ||| v == "all"@
    ||| v == "composite"@
    ||| v == "portion"@
    ||| v == "const"@
    ||| v == "member"@
    ||| v == "readonly"@
    ||| v == "derived"@
    ||| v == "end"@
    ||| v == "in"@
    ||| v == "out"@
    ||| v == "inout"@
    ||| v == "ref"@
    ||| v == "nonunique"@
    ||| v == "ordered"@
}

/// Relation keywords that a feature may be named by mistake.
pub open spec fn spec_is_relation_keyword_name(v: Seq<char>) -> bool {
    ||| v == "redefines"@
    ||| v == "subsets"@
    ||| v == "specializes"@
    ||| v == "typed"@
    ||| v == "featured"@
}

// ------------------------------------------------------------ token texts

/// The text of a documentation token.
pub open spec fn doc_text(k: TokenKind) -> Seq<char> {
    match k {
        TokenKind::Doc(v) => v@,
        _ => Seq::empty(),
    }
}

/// Tokens that can stand as a name segment.
pub open spec fn is_name_kind(k: TokenKind) -> bool {
    k is Identifier || k is String || k is Dollar
}

/// The text of a name segment.
pub open spec fn name_text(k: TokenKind) -> Seq<char> {
    match k {
        TokenKind::Identifier(v) => v@,
        TokenKind::String(v) => v@,
        TokenKind::Dollar => "$"@,
        _ => Seq::empty(),
    }
}

/// Tokens that can stand as an import path segment after the first.
pub open spec fn is_path_kind(k: TokenKind) -> bool {
    k is Identifier || k is Star || k is DoubleStar
}

/// The text of an import path segment.
pub open spec fn path_text(k: TokenKind) -> Seq<char> {
    match k {
        TokenKind::Identifier(v) => v@,
        TokenKind::Star => "*"@,
        TokenKind::DoubleStar => "**"@,
        _ => Seq::empty(),
    }
}

/// Separators between name segments.
pub open spec fn is_sep(k: TokenKind) -> bool {
    k is ScopeSep || k is Dot
}

// ------------------------------------------------------------ runs

/// The documentation texts of the run of doc tokens at `i`.
pub open spec fn docs_run(t: Seq<Token>, i: int) -> Seq<Seq<char>>
    decreases t.len() - i,
{
    if in_range(t, i) && t[i].kind is Doc {
        seq![doc_text(t[i].kind)] + docs_run(t, i + 1)
    } else {
        Seq::empty()
    }
}

/// The modifier keywords of the run of modifiers at `i`.
pub open spec fn modifier_run(t: Seq<Token>, i: int) -> Seq<Seq<char>>
    decreases t.len() - i,
{
    if in_range(t, i) && t[i].kind is Identifier && spec_is_modifier(ident_text(t[i].kind)) {
        seq![ident_text(t[i].kind)] + modifier_run(t, i + 1)
    } else {
        Seq::empty()
    }
}

/// The metadata prefixes (`@Name`, `#Name`, or a bare `@`) at `i`, and the
/// position after them.
pub open spec fn meta_run(t: Seq<Token>, i: int) -> (Seq<Seq<char>>, int)
    decreases t.len() - i,
{
    if in_range(t, i) && (t[i].kind is At || t[i].kind is Hash) {
        if in_range(t, i + 1) && (t[i + 1].kind is Identifier || t[i + 1].kind is String) {
            let rest = meta_run(t, i + 2);
            (seq![name_text(t[i + 1].kind)] + rest.0, rest.1)
        } else {
            let rest = meta_run(t, i + 1);
            (seq!["metadata"@] + rest.0, rest.1)
        }
    } else {
        (Seq::empty(), i)
    }
}

// ------------------------------------------------------------ skipping

/// Scanning a bracketed group, `depth` groups deep, from `i`: the position
/// after the token that closes the outermost group, or the end of input.
pub open spec fn balanced_scan(t: Seq<Token>, i: int, open: u8, close: u8, depth: nat) -> int
    decreases t.len() - i,
{
    if !in_range(t, i) || t[i].kind is Eof {
        i
    } else if kind_tag(t[i].kind) == open {
        balanced_scan(t, i + 1, open, close, depth + 1)
    } else if kind_tag(t[i].kind) == close {
        if depth <= 1 {
            i + 1
        } else {
            balanced_scan(t, i + 1, open, close, (depth - 1) as nat)
        }
    } else {
        balanced_scan(t, i + 1, open, close, depth)
    }
}

/// The position after the bracketed group that opens at `i`, or `i` when no
/// group opens there.
pub open spec fn balanced_end(t: Seq<Token>, i: int, open: u8, close: u8) -> int {
    if in_range(t, i) && kind_tag(t[i].kind) == open {
        balanced_scan(t, i, open, close, 0)
    } else {
        i
    }
}

pub proof fn lemma_balanced_scan_bounds(t: Seq<Token>, i: int, open: u8, close: u8, depth: nat)
    requires
        0 <= i <= t.len(),
    ensures
        i <= balanced_scan(t, i, open, close, depth) <= t.len(),
        in_range(t, i) && !(t[i].kind is Eof) ==> i < balanced_scan(t, i, open, close, depth),
    decreases t.len() - i,
{
    if !in_range(t, i) || t[i].kind is Eof {
    } else if kind_tag(t[i].kind) == open {
        lemma_balanced_scan_bounds(t, i + 1, open, close, depth + 1);
    } else if kind_tag(t[i].kind) == close {
        if depth > 1 {
            lemma_balanced_scan_bounds(t, i + 1, open, close, (depth - 1) as nat);
        }
    } else {
        lemma_balanced_scan_bounds(t, i + 1, open, close, depth);
    }
}

/// The position after the run of `<...>` groups at `i`.
pub open spec fn angle_end(t: Seq<Token>, i: int) -> int
    decreases t.len() - i,
    via angle_end_decreases
{
    if 0 <= i && in_range(t, i) && t[i].kind is LAngle {
        angle_end(t, balanced_scan(t, i, 14, 15, 0))
    } else {
        i
    }
}

#[via_fn]
proof fn angle_end_decreases(t: Seq<Token>, i: int) {
    if 0 <= i && in_range(t, i) && t[i].kind is LAngle {
        lemma_balanced_scan_bounds(t, i, 14, 15, 0);
    }
}

/// The position after an optional multiplicity `[...]` at `i`.
pub open spec fn mult_end(t: Seq<Token>, i: int) -> int {
    balanced_end(t, i, 12, 13)
}

/// Scanning an expression from `i` with the given open brace, paren,
/// bracket and angle depths: the position of the `;` or `}` that ends it
/// at depth zero, or of the end of input.
pub open spec fn expr_tail_scan(t: Seq<Token>, i: int, b: nat, p: nat, k: nat, a: nat) -> int
    decreases t.len() - i,
{
    if !in_range(t, i) || t[i].kind is Eof {
        i
    } else if b == 0 && p == 0 && k == 0 && a == 0 && (t[i].kind is Semicolon
        || t[i].kind is RBrace) {
        i
    } else {
        let kd = t[i].kind;
        expr_tail_scan(
            t,
            i + 1,
            if kd is LBrace { b + 1 } else if kd is RBrace { sat_dec(b) } else { b },
            if kd is LParen { p + 1 } else if kd is RParen { sat_dec(p) } else { p },
            if kd is LBracket { k + 1 } else if kd is RBracket { sat_dec(k) } else { k },
            if kd is LAngle { a + 1 } else if kd is RAngle { sat_dec(a) } else { a },
        )
    }
}

/// The position where a `= expression` tail at `i` ends.
pub open spec fn expr_tail_end(t: Seq<Token>, i: int) -> int {
    if in_range(t, i) && t[i].kind is Equals {
        expr_tail_scan(t, i, 0, 0, 0, 0)
    } else {
        i
    }
}

/// Scanning the rest of a feature declaration from `i`: the position of
/// the `;`, `{` or `}` at paren, bracket and angle depth zero, or of the
/// end of input.
pub open spec fn feature_tail_scan(t: Seq<Token>, i: int, p: nat, k: nat, a: nat) -> int
    decreases t.len() - i,
{
    if !in_range(t, i) || t[i].kind is Eof {
        i
    } else if p == 0 && k == 0 && a == 0 && (t[i].kind is Semicolon || t[i].kind is LBrace
        || t[i].kind is RBrace) {
        i
    } else {
        let kd = t[i].kind;
        feature_tail_scan(
            t,
            i + 1,
            if kd is LParen { p + 1 } else if kd is RParen { sat_dec(p) } else { p },
            if kd is LBracket { k + 1 } else if kd is RBracket { sat_dec(k) } else { k },
            if kd is LAngle { a + 1 } else if kd is RAngle { sat_dec(a) } else { a },
        )
    }
}

/// Consuming the rest of a declaration the grammar only delimits, from
/// `i`: the final position and the position of the last token taken.
pub open spec fn decl_tail_scan(
    t: Seq<Token>,
    i: int,
    started: bool,
    b: nat,
    p: nat,
    k: nat,
    a: nat,
    end: int,
) -> (int, int)
    decreases t.len() - i,
{
    if !in_range(t, i) || t[i].kind is Eof {
        (i, end)
    } else {
        let kd = t[i].kind;
        if kd is RBrace && b == 0 {
            (i, i)
        } else if kd is Semicolon && b == 0 && p == 0 && k == 0 && a == 0 {
            (i + 1, i)
        } else {
            let b2 = if kd is LBrace { b + 1 } else if kd is RBrace { (b - 1) as nat } else { b };
            let p2 = if kd is LParen { p + 1 } else if kd is RParen { sat_dec(p) } else { p };
            let k2 = if kd is LBracket { k + 1 } else if kd is RBracket { sat_dec(k) } else { k };
            let a2 = if kd is LAngle { a + 1 } else if kd is RAngle { sat_dec(a) } else { a };
            if started && kd is RBrace && b2 == 0 {
                (i + 1, i)
            } else {
                decl_tail_scan(t, i + 1, started, b2, p2, k2, a2, i)
            }
        }
    }
}

/// The final position and last-token position of a declaration tail at `i`.
pub open spec fn decl_tail(t: Seq<Token>, i: int) -> (int, int) {
    decl_tail_scan(t, i, in_range(t, i) && t[i].kind is LBrace, 0, 0, 0, 0, i)
}

// ------------------------------------------------------------ names

/// The segments after the first of a qualified name whose previous
/// segment ends before `j`, and the position after the name.
pub open spec fn qname_tail(t: Seq<Token>, j: int) -> Result<(Seq<Seq<char>>, int), SpecError>
    decreases t.len() - j,
{
    if in_range(t, j) && is_sep(t[j].kind) {
        if in_range(t, j + 1) && is_name_kind(t[j + 1].kind) {
            match qname_tail(t, j + 2) {
                Ok((segs, end)) => Ok((seq![name_text(t[j + 1].kind)] + segs, end)),
                Err(e) => Err(e),
            }
        } else {
            Err((j + 1, "expected name segment"@))
        }
    } else {
        Ok((Seq::empty(), j))
    }
}

/// The qualified name at `i` and the position after it.
pub open spec fn qname_spec(t: Seq<Token>, i: int) -> Result<(QualifiedNameView, int), SpecError> {
    if in_range(t, i) && is_name_kind(t[i].kind) {
        match qname_tail(t, i + 1) {
            Ok((segs, end)) => Ok(
                (
                    QualifiedNameView {
                        segments: seq![name_text(t[i].kind)] + segs,
                        span: spec_merge_span(t[i].span, t[end - 1].span),
                    },
                    end,
                ),
            ),
            Err(e) => Err(e),
        }
    } else {
        Err((i, "expected name"@))
    }
}

/// The import path segments after the first, from `j`.
pub open spec fn path_tail(t: Seq<Token>, j: int) -> Result<(Seq<Seq<char>>, int), SpecError>
    decreases t.len() - j,
{
    if in_range(t, j) && is_sep(t[j].kind) {
        if in_range(t, j + 1) && is_path_kind(t[j + 1].kind) {
            match path_tail(t, j + 2) {
                Ok((segs, end)) => Ok((seq![path_text(t[j + 1].kind)] + segs, end)),
                Err(e) => Err(e),
            }
        } else {
            Err((j + 1, "expected import path segment"@))
        }
    } else {
        Ok((Seq::empty(), j))
    }
}

/// The import path at `i` and the position after it.
pub open spec fn import_path_spec(t: Seq<Token>, i: int) -> Result<
    (QualifiedNameView, int),
    SpecError,
> {
    if in_range(t, i) && t[i].kind is Identifier {
        match path_tail(t, i + 1) {
            Ok((segs, end)) => Ok(
                (
                    QualifiedNameView {
                        segments: seq![ident_text(t[i].kind)] + segs,
                        span: spec_merge_span(t[i].span, t[end - 1].span),
                    },
                    end,
                ),
            ),
            Err(e) => Err(e),
        }
    } else {
        Err((i, "expected import path"@))
    }
}

pub proof fn lemma_qname_tail_bounds(t: Seq<Token>, j: int)
    requires
        0 <= j <= t.len(),
    ensures
        qname_tail(t, j) matches Ok((segs, end)) ==> j <= end <= t.len(),
        path_tail(t, j) matches Ok((segs, end)) ==> j <= end <= t.len(),
    decreases t.len() - j,
{
    if in_range(t, j) && is_sep(t[j].kind) && in_range(t, j + 1) {
        lemma_qname_tail_bounds(t, j + 2);
    }
}

pub proof fn lemma_qname_bounds(t: Seq<Token>, i: int)
    requires
        0 <= i,
    ensures
        qname_spec(t, i) matches Ok((q, end)) ==> i < end <= t.len(),
        import_path_spec(t, i) matches Ok((q, end)) ==> i < end <= t.len(),
{
    if in_range(t, i) {
        lemma_qname_tail_bounds(t, i + 1);
    }
}

/// The further comma-separated names from `j`.
pub open spec fn targets_tail(t: Seq<Token>, j: int) -> Result<
    (Seq<QualifiedNameView>, int),
    SpecError,
>
    decreases t.len() - j,
    via targets_tail_decreases
{
    if 0 <= j && in_range(t, j) && t[j].kind is Comma {
        match qname_spec(t, j + 1) {
            Ok((q, e)) => match targets_tail(t, e) {
                Ok((qs, e2)) => Ok((seq![q] + qs, e2)),
                Err(x) => Err(x),
            },
            Err(x) => Err(x),
        }
    } else {
        Ok((Seq::empty(), j))
    }
}

#[via_fn]
proof fn targets_tail_decreases(t: Seq<Token>, j: int) {
    if 0 <= j && in_range(t, j) && t[j].kind is Comma {
        lemma_qname_bounds(t, j + 1);
    }
}

/// A comma-separated list of names at `i`, and the position after it.
pub open spec fn targets_spec(t: Seq<Token>, i: int) -> Result<
    (Seq<QualifiedNameView>, int),
    SpecError,
> {
    match qname_spec(t, i) {
        Ok((q, e)) => match targets_tail(t, e) {
            Ok((qs, e2)) => Ok((seq![q] + qs, e2)),
            Err(x) => Err(x),
        },
        Err(x) => Err(x),
    }
}

pub proof fn lemma_targets_tail_bounds(t: Seq<Token>, j: int)
    requires
        0 <= j <= t.len(),
    ensures
        targets_tail(t, j) matches Ok((qs, end)) ==> j <= end <= t.len(),
    decreases t.len() - j,
{
    if 0 <= j && in_range(t, j) && t[j].kind is Comma {
        lemma_qname_bounds(t, j + 1);
        if let Ok((q, e)) = qname_spec(t, j + 1) {
            lemma_targets_tail_bounds(t, e);
        }
    }
}

pub proof fn lemma_targets_bounds(t: Seq<Token>, i: int)
    requires
        0 <= i,
    ensures
        targets_spec(t, i) matches Ok((qs, end)) ==> i < end <= t.len(),
{
    lemma_qname_bounds(t, i);
    if let Ok((q, e)) = qname_spec(t, i) {
        lemma_targets_tail_bounds(t, e);
    }
}

// ------------------------------------------------------------ lists of names

/// How many comma tokens lie in `[i, e)`.
pub open spec fn commas(t: Seq<Token>, i: int, e: int) -> nat
    decreases e - i,
{
    if i >= e {
        0
    } else {
        (if t[i].kind is Comma {
            1nat
        } else {
            0nat
        }) + commas(t, i + 1, e)
    }
}

/// Commas count over adjoining ranges add up.
proof fn lemma_commas_split(t: Seq<Token>, a: int, b: int, c: int)
    requires
        a <= b <= c,
    ensures
        commas(t, a, c) == commas(t, a, b) + commas(t, b, c),
    decreases b - a,
{
    if a < b {
        lemma_commas_split(t, a + 1, b, c);
    }
}

/// The later segments of a qualified name hold no comma.
proof fn lemma_qname_tail_no_commas(t: Seq<Token>, j: int)
    requires
        0 <= j <= t.len(),
    ensures
        qname_tail(t, j) matches Ok((segs, end)) ==> commas(t, j, end) == 0,
    decreases t.len() - j,
{
    if in_range(t, j) && is_sep(t[j].kind) && in_range(t, j + 1) && is_name_kind(t[j + 1].kind) {
        lemma_qname_tail_no_commas(t, j + 2);
        lemma_qname_tail_bounds(t, j + 2);
        if let Ok((segs, end)) = qname_tail(t, j + 2) {
            lemma_commas_split(t, j, j + 2, end);
            assert(commas(t, j, j + 2) == 0) by {
                assert(commas(t, j + 2, j + 2) == 0);
                assert(commas(t, j + 1, j + 2) == 0);
            }
        }
    } else if qname_tail(t, j) is Ok {
        assert(commas(t, j, j) == 0);
    }
}

/// A qualified name holds no comma.
proof fn lemma_qname_no_commas(t: Seq<Token>, i: int)
    requires
        0 <= i,
    ensures
        qname_spec(t, i) matches Ok((q, end)) ==> commas(t, i, end) == 0,
{
    if in_range(t, i) && is_name_kind(t[i].kind) {
        lemma_qname_tail_bounds(t, i + 1);
        lemma_qname_tail_no_commas(t, i + 1);
        if let Ok((segs, end)) = qname_tail(t, i + 1) {
            lemma_commas_split(t, i, i + 1, end);
            assert(commas(t, i, i + 1) == 0) by {
                assert(commas(t, i + 1, i + 1) == 0);
            }
        }
    }
}

/// The qualified name `q` follows the comma at `p`, the `k`-th comma
/// counted from `from`.
pub open spec fn listed_at(t: Seq<Token>, from: int, p: int, k: int, q: QualifiedNameView) -> bool {
    &&& from <= p
    &&& in_range(t, p)
    &&& t[p].kind is Comma
    &&& commas(t, from, p) == k
    &&& qname_spec(t, p + 1) matches Ok((q2, _)) && q2 == q
}

/// `qs` holds one name per comma in `[j, e)`, each the name that follows
/// its comma, in order.
pub open spec fn tail_listed(t: Seq<Token>, j: int, qs: Seq<QualifiedNameView>, e: int) -> bool {
    &&& qs.len() == commas(t, j, e)
    &&& forall|k: int| 0 <= k < qs.len() ==> #[trigger] entry_listed(t, j, qs, e, k, k)
}

/// The `k`-th of `qs` follows the `c`-th comma counted from `from`, before
/// `e`.
pub open spec fn entry_listed(t: Seq<Token>, from: int, qs: Seq<QualifiedNameView>, e: int, k: int, c: int) -> bool {
    exists|p: int| p < e && #[trigger] listed_at(t, from, p, c, qs[k])
}

/// `qs` holds the name at `i`, then one name per comma in `[i, e)`, each
/// the name that follows its comma, in order.
pub open spec fn list_listed(t: Seq<Token>, i: int, qs: Seq<QualifiedNameView>, e: int) -> bool {
    &&& qs.len() == commas(t, i, e) + 1
    &&& qname_spec(t, i) matches Ok((q0, _)) && qs[0] == q0
    &&& forall|k: int| 1 <= k < qs.len() ==> #[trigger] entry_listed(t, i, qs, e, k, k - 1)
}

/// The names after the commas from `j`: one name per comma read, each the
/// qualified name that follows its comma, in order.
pub proof fn lemma_targets_tail_one_per_comma(t: Seq<Token>, j: int)
    requires
        0 <= j <= t.len(),
    ensures
        targets_tail(t, j) matches Ok((qs, e)) ==> tail_listed(t, j, qs, e),
    decreases t.len() - j,
{
    if 0 <= j && in_range(t, j) && t[j].kind is Comma {
        lemma_qname_bounds(t, j + 1);
        lemma_qname_no_commas(t, j + 1);
        if let Ok((q, e1)) = qname_spec(t, j + 1) {
            lemma_targets_tail_one_per_comma(t, e1);
            lemma_targets_tail_bounds(t, e1);
            if let Ok((rest, e2)) = targets_tail(t, e1) {
                let qs = seq![q] + rest;
                lemma_commas_split(t, j, j + 1, e1);
                lemma_commas_split(t, j, e1, e2);
                assert(commas(t, j, j + 1) == 1) by {
                    assert(commas(t, j + 1, j + 1) == 0);
                }
                assert forall|k: int| 0 <= k < qs.len() implies #[trigger] entry_listed(t, j, qs, e2, k, k) by {
                    if k == 0 {
                        assert(commas(t, j, j) == 0);
                        assert(listed_at(t, j, j, 0, qs[0]));
                    } else {
                        assert(qs[k] == rest[k - 1]);
                        assert(entry_listed(t, e1, rest, e2, k - 1, k - 1));
                        let p = choose|p: int| p < e2 && #[trigger] listed_at(t, e1, p, k - 1, rest[k - 1]);
                        lemma_commas_split(t, j, e1, p);
                        assert(listed_at(t, j, p, k, qs[k]));
                    }
                }
                assert(targets_tail(t, j) == Ok::<(Seq<QualifiedNameView>, int), SpecError>((qs, e2)));
                assert(qs.len() == commas(t, j, e2));
                assert(tail_listed(t, j, qs, e2));
            }
        }
    } else {
        assert(commas(t, j, j) == 0);
        assert(tail_listed(t, j, Seq::empty(), j));
    }
}

/// A comma-separated list of names has one name per comma read plus one:
/// the first the qualified name at its start, each later one the qualified
/// name that follows its comma, in order.
pub proof fn lemma_targets_one_per_comma(t: Seq<Token>, i: int)
    requires
        0 <= i,
    ensures
        targets_spec(t, i) matches Ok((qs, e)) ==> list_listed(t, i, qs, e),
{
    lemma_qname_bounds(t, i);
    lemma_qname_no_commas(t, i);
    if let Ok((q, e1)) = qname_spec(t, i) {
        lemma_targets_tail_one_per_comma(t, e1);
        lemma_targets_tail_bounds(t, e1);
        if let Ok((rest, e2)) = targets_tail(t, e1) {
            let qs = seq![q] + rest;
            lemma_commas_split(t, i, e1, e2);
            assert forall|k: int| 1 <= k < qs.len() implies #[trigger] entry_listed(t, i, qs, e2, k, k - 1) by {
                assert(qs[k] == rest[k - 1]);
                assert(entry_listed(t, e1, rest, e2, k - 1, k - 1));
                let p = choose|p: int| p < e2 && #[trigger] listed_at(t, e1, p, k - 1, rest[k - 1]);
                lemma_commas_split(t, i, e1, p);
                assert(listed_at(t, i, p, k - 1, qs[k]));
            }
            assert(targets_spec(t, i) == Ok::<(Seq<QualifiedNameView>, int), SpecError>((qs, e2)));
            assert(qs.len() == commas(t, i, e2) + 1);
            assert(list_listed(t, i, qs, e2));
        }
    }
}

/// An optional `specializes A, B` (or `:>`) clause at `i`.
pub open spec fn opt_specializations_spec(t: Seq<Token>, i: int) -> Result<
    (Seq<QualifiedNameView>, int),
    SpecError,
> {
    if in_range(t, i) && (t[i].kind is Specializes || is_ident(t[i].kind, "specializes"@)) {
        targets_spec(t, i + 1)
    } else {
        Ok((Seq::empty(), i))
    }
}

/// Relation keywords after a classifier name whose targets are read and
/// dropped.
pub open spec fn is_dropped_classifier_relation(v: Seq<char>) -> bool {
    ||| v == "unions"@
    ||| v == "intersects"@
    ||| v == "differences"@
    ||| v == "disjoint"@
    ||| v == "conjugates"@
    ||| v == "inverse"@
    ||| v == "chains"@
    ||| v == "ordered"@
}

/// Where the targets of a dropped classifier relation whose keyword is
/// `kw` start, the keyword itself standing at `i`.
pub open spec fn classifier_relation_targets_start(t: Seq<Token>, i: int, kw: Seq<char>) -> int {
    if kw == "disjoint"@ {
        if in_range(t, i + 1) && is_ident(t[i + 1].kind, "from"@) {
            i + 2
        } else {
            i + 1
        }
    } else if kw == "inverse"@ && in_range(t, i + 1) && is_ident(t[i + 1].kind, "of"@) {
        i + 2
    } else {
        i + 1
    }
}

/// The relation clauses after a classifier name, from `i`: the
/// specialized names and the position after the clauses.
pub open spec fn classifier_relations_spec(t: Seq<Token>, i: int) -> Result<
    (Seq<QualifiedNameView>, int),
    SpecError,
>
    decreases t.len() - i,
    via classifier_relations_decreases
{
    if 0 <= i && in_range(t, i) {
        let kd = t[i].kind;
        if kd is Specializes || is_ident(kd, "specializes"@) {
            match targets_spec(t, i + 1) {
                Ok((qs, e)) => match classifier_relations_spec(t, e) {
                    Ok((rest, e2)) => Ok((qs + rest, e2)),
                    Err(x) => Err(x),
                },
                Err(x) => Err(x),
            }
        } else if kd is Identifier && is_dropped_classifier_relation(ident_text(kd)) {
            match targets_spec(t, classifier_relation_targets_start(t, i, ident_text(kd))) {
                Ok((qs, e)) => classifier_relations_spec(t, e),
                Err(x) => Err(x),
            }
        } else {
            Ok((Seq::empty(), i))
        }
    } else {
        Ok((Seq::empty(), i))
    }
}

#[via_fn]
proof fn classifier_relations_decreases(t: Seq<Token>, i: int) {
    if 0 <= i && in_range(t, i) {
        let kd = t[i].kind;
        lemma_targets_bounds(t, i + 1);
        lemma_targets_bounds(t, i + 2);
    }
}

/// The relation clauses a feature collects.
pub struct FeatureRelationsView {
    pub specializes: Seq<QualifiedNameView>,
    pub subsets: Seq<QualifiedNameView>,
    pub redefines: Seq<QualifiedNameView>,
}

/// Relation keywords after a feature whose targets are read and dropped.
pub open spec fn is_dropped_feature_relation(v: Seq<char>) -> bool {
    ||| v == "unions"@
    ||| v == "intersects"@
    ||| v == "differences"@
    ||| v == "disjoint"@
    ||| v == "conjugates"@
}

/// Which kind of feature relation clause starts at `i`: 1 specializes,
/// 2 redefines, 3 subsets, 4 typed by, 5 references, 6 featured by,
/// 7 a dropped relation, 0 none.
pub open spec fn feature_relation_class(kd: TokenKind) -> int {
    if kd is Specializes || is_ident(kd, "specializes"@) {
        1
    } else if kd is Redefines || is_ident(kd, "redefines"@) {
        2
    } else if is_ident(kd, "subsets"@) {
        3
    } else if is_ident(kd, "typed"@) {
        4
    } else if is_ident(kd, "references"@) {
        5
    } else if is_ident(kd, "featured"@) {
        6
    } else if kd is Identifier && is_dropped_feature_relation(ident_text(kd)) {
        7
    } else {
        0
    }
}

/// Where the targets of the feature relation clause at `i` start, or the
/// error when a required `by` is missing.
pub open spec fn feature_relation_targets_start(t: Seq<Token>, i: int) -> Result<int, SpecError> {
    let c = feature_relation_class(t[i].kind);
    if c == 4 || c == 6 {
        if in_range(t, i + 1) && is_ident(t[i + 1].kind, "by"@) {
            Ok(i + 2)
        } else if c == 4 {
            Err((i + 1, "expected `by` after `typed`"@))
        } else {
            Err((i + 1, "expected `by` after `featured`"@))
        }
    } else if c == 7 && ident_text(t[i].kind) == "disjoint"@ && in_range(t, i + 1) && is_ident(
        t[i + 1].kind,
        "from"@,
    ) {
        Ok(i + 2)
    } else {
        Ok(i + 1)
    }
}

/// The relation clauses after a feature's type, from `i`, and the position
/// after them.
pub open spec fn feature_relations_spec(t: Seq<Token>, i: int) -> Result<
    (FeatureRelationsView, int),
    SpecError,
>
    decreases t.len() - i,
    via feature_relations_decreases
{
    if 0 <= i && in_range(t, i) && feature_relation_class(t[i].kind) != 0 {
        let c = feature_relation_class(t[i].kind);
        match feature_relation_targets_start(t, i) {
            Ok(s) => match targets_spec(t, s) {
                Ok((qs, e)) => match feature_relations_spec(t, e) {
                    Ok((r, e2)) => Ok(
                        (
                            FeatureRelationsView {
                                specializes: if c == 1 || c == 4 {
                                    qs + r.specializes
                                } else {
                                    r.specializes
                                },
                                subsets: if c == 3 {
                                    qs + r.subsets
                                } else {
                                    r.subsets
                                },
                                redefines: if c == 2 {
                                    qs + r.redefines
                                } else {
                                    r.redefines
                                },
                            },
                            e2,
                        ),
                    ),
                    Err(x) => Err(x),
                },
                Err(x) => Err(x),
            },
            Err(x) => Err(x),
        }
    } else {
        Ok(
            (
                FeatureRelationsView {
                    specializes: Seq::empty(),
                    subsets: Seq::empty(),
                    redefines: Seq::empty(),
                },
                i,
            ),
        )
    }
}

#[via_fn]
proof fn feature_relations_decreases(t: Seq<Token>, i: int) {
    if 0 <= i && in_range(t, i) && feature_relation_class(t[i].kind) != 0 {
        lemma_targets_bounds(t, i + 1);
        lemma_targets_bounds(t, i + 2);
    }
}

// ------------------------------------------------------------ declarations

/// The docs and modifier positions of a declaration: `(after docs, after
/// leading metadata, after modifiers, after trailing metadata, head)`,
/// the head being where the declaration's keyword stands.
pub open spec fn decl_positions(t: Seq<Token>, i: int) -> (int, int, int, int, int) {
    let p0 = i + docs_run(t, i).len();
    let p1 = meta_run(t, p0).1;
    let p2 = p1 + modifier_run(t, p1).len();
    let p3 = meta_run(t, p2).1;
    let h = mult_end(t, p3);
    (p0, p1, p2, p3, h)
}

/// The name given to a feature declared without one, from where its
/// declaration starts: `feature_<line>_<col>`.
pub open spec fn implicit_feature_name(span: crate::kerml::token::SourceSpan) -> Seq<char> {
    "feature_"@ + crate::text::decimal(span.start_line as nat) + "_"@ + crate::text::decimal(
        span.start_col as nat,
    )
}

/// The kinds that tell a feature name is left out.
pub open spec fn starts_relation(k: TokenKind) -> bool {
    k is Colon || k is Specializes || k is Redefines
}

/// `import Path;`: the path, the position of the last token and the final
/// position.
pub open spec fn import_spec(t: Seq<Token>, i: int) -> Result<(QualifiedNameView, int, int), SpecError> {
    if !(in_range(t, i) && t[i].kind is Import) {
        Err((i, "expected `import`"@))
    } else {
        match import_path_spec(t, i + 1) {
            Ok((path, e)) => if in_range(t, e) && t[e].kind is Semicolon {
                Ok((path, e, e + 1))
            } else {
                Ok((path, decl_tail(t, e).1, decl_tail(t, e).0))
            },
            Err(x) => Err(x),
        }
    }
}

/// `alias Name for Target;`: the name, the target, the position of the
/// `;` and the final position.
pub open spec fn alias_spec(t: Seq<Token>, i: int) -> Result<
    (Seq<char>, QualifiedNameView, int, int),
    SpecError,
> {
    if !(in_range(t, i) && t[i].kind is Identifier) {
        Err((i, "expected `alias`"@))
    } else if !is_ident(t[i].kind, "alias"@) {
        Err((i, "expected `alias`"@))
    } else if !(in_range(t, i + 1) && t[i + 1].kind is Identifier) {
        Err((i + 1, "expected alias name"@))
    } else {
        let k = i + 2;
        let start: Result<int, SpecError> = if in_range(t, k) && is_ident(t[k].kind, "for"@) {
            Ok(k + 1)
        } else if in_range(t, k) && t[k].kind is Equals {
            Ok(k + 1)
        } else {
            Err((k, "expected `=` after alias name"@))
        };
        match start {
            Ok(q0) => match qname_spec(t, q0) {
                Ok((target, e)) => if in_range(t, e) && t[e].kind is Semicolon {
                    Ok((ident_text(t[i + 1].kind), target, e, e + 1))
                } else {
                    Err((e, "expected `;` after alias"@))
                },
                Err(x) => Err(x),
            },
            Err(x) => Err(x),
        }
    }
}

/// A declaration the grammar only delimits: its keyword, its name, the
/// position of its last token and the final position.
pub open spec fn opaque_spec(t: Seq<Token>, i: int) -> (Seq<char>, Seq<char>, int, int) {
    let kw = if t[i].kind is Identifier {
        ident_text(t[i].kind)
    } else if t[i].kind is Specializes {
        "specialization"@
    } else if t[i].kind is Redefines {
        "redefinition"@
    } else {
        "declaration"@
    };
    let j = if t[i].kind is Identifier || t[i].kind is Specializes || t[i].kind is Redefines {
        i + 1
    } else {
        i
    };
    let a = angle_end(t, j);
    let name = if in_range(t, a) && t[a].kind is Identifier {
        ident_text(t[a].kind)
    } else {
        kw
    };
    let n = if in_range(t, a) && t[a].kind is Identifier {
        a + 1
    } else {
        a
    };
    (kw, name, decl_tail(t, n).1, decl_tail(t, n).0)
}

/// `package Name specializes ...`: the name and the position after the
/// head.
pub open spec fn package_head(t: Seq<Token>, i: int) -> Result<(QualifiedNameView, int), SpecError> {
    if !(in_range(t, i) && t[i].kind is Package) {
        Err((i, "expected `package`"@))
    } else {
        match qname_spec(t, i + 1) {
            Ok((name, e)) => match opt_specializations_spec(t, e) {
                Ok((_, e2)) => Ok((name, e2)),
                Err(x) => Err(x),
            },
            Err(x) => Err(x),
        }
    }
}

/// `classifier <..> modifiers Name [..] relations`: the keyword, the name,
/// the specialized names and the position after the head.
pub open spec fn classifier_head(t: Seq<Token>, i: int) -> Result<
    (Seq<char>, Seq<char>, Seq<QualifiedNameView>, int),
    SpecError,
> {
    if !(in_range(t, i) && t[i].kind is Identifier) {
        Err((i, "expected classifier keyword"@))
    } else {
        let j = if in_range(t, i + 1) && t[i + 1].kind is Identifier
            && spec_is_definition_keyword(ident_text(t[i + 1].kind)) {
            i + 2
        } else {
            i + 1
        };
        let a = angle_end(t, j);
        let m = a + modifier_run(t, a).len();
        if !(in_range(t, m) && t[m].kind is Identifier) {
            Err((m, "expected classifier name"@))
        } else {
            match classifier_relations_spec(t, mult_end(t, m + 1)) {
                Ok((specs, e)) => Ok((ident_text(t[i].kind), ident_text(t[m].kind), specs, e)),
                Err(x) => Err(x),
            }
        }
    }
}

/// `feature def Name specializes ...`: the name, the specialized names and
/// the position after the head.
pub open spec fn feature_def_head(t: Seq<Token>, i: int) -> Result<
    (Seq<char>, Seq<QualifiedNameView>, int),
    SpecError,
> {
    if !(in_range(t, i) && t[i].kind is Identifier) || !is_ident(t[i].kind, "feature"@) {
        Err((i, "expected `feature`"@))
    } else if !(in_range(t, i + 1) && t[i + 1].kind is Def) {
        Err((i + 1, "expected `def` after `feature`"@))
    } else if !(in_range(t, i + 2) && t[i + 2].kind is Identifier) {
        Err((i + 2, "expected feature definition name"@))
    } else {
        match opt_specializations_spec(t, i + 3) {
            Ok((specs, e)) => Ok((ident_text(t[i + 2].kind), specs, e)),
            Err(x) => Err(x),
        }
    }
}

/// Further `, Type [..]` entries of a feature's typing, from `p`.
pub open spec fn additional_types_spec(t: Seq<Token>, p: int) -> Result<
    (Seq<QualifiedNameView>, int),
    SpecError,
>
    decreases t.len() - p,
    via additional_types_decreases
{
    if 0 <= p && in_range(t, p) && t[p].kind is Comma {
        match qname_spec(t, p + 1) {
            Ok((q, e)) => match additional_types_spec(t, mult_end(t, e)) {
                Ok((qs, e2)) => Ok((seq![q] + qs, e2)),
                Err(x) => Err(x),
            },
            Err(x) => Err(x),
        }
    } else {
        Ok((Seq::empty(), p))
    }
}

pub proof fn lemma_mult_end_bounds(t: Seq<Token>, i: int)
    requires
        0 <= i <= t.len(),
    ensures
        i <= mult_end(t, i) <= t.len(),
{
    if in_range(t, i) && kind_tag(t[i].kind) == 12 {
        lemma_balanced_scan_bounds(t, i, 12, 13, 0);
    }
}

#[via_fn]
proof fn additional_types_decreases(t: Seq<Token>, p: int) {
    if 0 <= p && in_range(t, p) && t[p].kind is Comma {
        lemma_qname_bounds(t, p + 1);
        if let Ok((q, e)) = qname_spec(t, p + 1) {
            lemma_mult_end_bounds(t, e);
        }
    }
}

/// The optional `: Type [..], Type [..]` typing of a feature at `m`: the
/// type, the further types and the position after them.
pub open spec fn typing_spec(t: Seq<Token>, m: int) -> Result<
    (Option<QualifiedNameView>, Seq<QualifiedNameView>, int),
    SpecError,
> {
    if in_range(t, m) && t[m].kind is Colon {
        match qname_spec(t, m + 1) {
            Ok((ty, e)) => match additional_types_spec(t, mult_end(t, e)) {
                Ok((more, e2)) => Ok((Some(ty), more, e2)),
                Err(x) => Err(x),
            },
            Err(x) => Err(x),
        }
    } else {
        Ok((None, Seq::empty(), m))
    }
}

/// The position after a feature's value or trailing clauses, from `r`.
pub open spec fn feature_rest_end(t: Seq<Token>, r: int) -> int {
    if in_range(t, r) && t[r].kind is Equals {
        expr_tail_end(t, r)
    } else {
        feature_tail_scan(t, r, 0, 0, 0)
    }
}

/// What a feature head yields.
pub struct FeatureHeadView {
    pub name: Seq<char>,
    pub ty: Option<QualifiedNameView>,
    pub additional_types: Seq<QualifiedNameView>,
    pub relations: FeatureRelationsView,
}

/// A feature's name at `j` (or the implicit name for a declaration that
/// starts with `start`), and the position after it.
pub open spec fn feature_name_spec(t: Seq<Token>, j: int, start: crate::kerml::token::SourceSpan) -> Result<
    (Seq<char>, int),
    SpecError,
> {
    if in_range(t, j) && starts_relation(t[j].kind) {
        Ok((implicit_feature_name(start), j))
    } else if in_range(t, j) && t[j].kind is Identifier {
        Ok((ident_text(t[j].kind), j + 1))
    } else {
        Err((j, "expected feature name"@))
    }
}

/// A name that is a relation keyword gives way to the identifier after it.
pub open spec fn rename_spec(t: Seq<Token>, name: Seq<char>, n: int) -> (Seq<char>, int) {
    if spec_is_relation_keyword_name(name) && in_range(t, n) && t[n].kind is Identifier {
        (ident_text(t[n].kind), n + 1)
    } else {
        (name, n)
    }
}

/// The typing, relations and tail of a feature from `m`: the head view
/// (with `name`) and the position where its end token should stand.
pub open spec fn feature_rest_spec(t: Seq<Token>, name: Seq<char>, m: int) -> Result<
    (FeatureHeadView, int),
    SpecError,
> {
    match typing_spec(t, m) {
        Ok((ty, more, e)) => match feature_relations_spec(t, e) {
            Ok((rels, r)) => Ok(
                (
                    FeatureHeadView { name, ty, additional_types: more, relations: rels },
                    feature_rest_end(t, r),
                ),
            ),
            Err(x) => Err(x),
        },
        Err(x) => Err(x),
    }
}

/// `feature Name [..] : Type relations ...` after modifiers.
pub open spec fn feature_head(t: Seq<Token>, i: int) -> Result<(FeatureHeadView, int), SpecError> {
    if !(in_range(t, i) && t[i].kind is Identifier) || !is_ident(t[i].kind, "feature"@) {
        Err((i, "expected `feature`"@))
    } else {
        match feature_name_spec(t, i + 1, t[i].span) {
            Ok((name0, n0)) => {
                let (name, n) = rename_spec(t, name0, n0);
                feature_rest_spec(t, name, mult_end(t, n))
            },
            Err(x) => Err(x),
        }
    }
}

/// A feature declared without the `feature` keyword, starting at `i`.
pub open spec fn unprefixed_head(t: Seq<Token>, i: int) -> Result<(FeatureHeadView, int), SpecError> {
    let start = t[i].span;
    let p = angle_end(t, mult_end(t, i));
    match feature_name_spec(t, p, start) {
        Ok((name0, n0)) => {
            let m = mult_end(t, n0);
            let second: Result<(Seq<char>, int), SpecError> = if in_range(t, m) && is_ident(
                t[m].kind,
                "feature"@,
            ) {
                feature_name_spec(t, m + 1, start)
            } else {
                Ok((name0, m))
            };
            match second {
                Ok((name1, n1)) => {
                    let (name, n) = rename_spec(t, name1, n1);
                    feature_rest_spec(t, name, n)
                },
                Err(x) => Err(x),
            }
        },
        Err(x) => Err(x),
    }
}

/// How a declaration body or terminator at `e` is read: 0 `;`, 1 `}`
/// (left for the enclosing body), 2 `{ ... }`, 3 none of these.
pub open spec fn body_class(t: Seq<Token>, e: int) -> int {
    if in_range(t, e) && t[e].kind is Semicolon {
        0
    } else if in_range(t, e) && t[e].kind is RBrace {
        1
    } else if in_range(t, e) && t[e].kind is LBrace {
        2
    } else {
        3
    }
}

/// The imports among a list of declarations, in order.
pub open spec fn import_members(ms: Seq<crate::kerml::ast::DeclarationView>) -> Seq<
    crate::kerml::ast::ImportView,
>
    decreases ms.len(),
{
    if ms.len() == 0 {
        Seq::empty()
    } else {
        match ms.last() {
            crate::kerml::ast::DeclarationView::Import(imp) => import_members(ms.drop_last()).push(
                imp,
            ),
            _ => import_members(ms.drop_last()),
        }
    }
}

/// The first package among a list of declarations.
pub open spec fn first_package(ms: Seq<crate::kerml::ast::DeclarationView>) -> Option<
    crate::kerml::ast::PackageView,
>
    decreases ms.len(),
{
    if ms.len() == 0 {
        None
    } else {
        match first_package(ms.drop_last()) {
            Some(p) => Some(p),
            None => match ms.last() {
                crate::kerml::ast::DeclarationView::Package(p) => Some(p),
                _ => None,
            },
        }
    }
}

/// Which branch a declaration with head `h` takes: 1 package, 2 import,
/// 3 alias, 4 classifier, 5 feature definition, 6 feature, 7 opaque,
/// 8 unprefixed feature, 9 end of a body or of input, 10 invalid.
pub open spec fn decl_class(t: Seq<Token>, h: int, has_modifiers: bool, has_metadata: bool) -> int {
    let k = t[h].kind;
    if k is Package {
        1
    } else if k is Import {
        2
    } else if is_ident(k, "alias"@) {
        3
    } else if k is Identifier && spec_is_definition_keyword(ident_text(k)) {
        4
    } else if is_ident(k, "feature"@) && in_range(t, h + 1) && t[h + 1].kind is Def {
        5
    } else if is_ident(k, "feature"@) {
        6
    } else if is_ident(k, "comment"@) || is_ident(k, "locale"@) || is_ident(k, "doc"@) {
        7
    } else if k is Identifier && (has_modifiers || (!spec_is_definition_keyword(ident_text(k))
        && !(ident_text(k) == "alias"@ || ident_text(k) == "feature"@) && in_range(t, h + 1) && (
    t[h + 1].kind is Colon || t[h + 1].kind is Specializes || t[h + 1].kind is Redefines
        || t[h + 1].kind is Equals || t[h + 1].kind is Semicolon || t[h + 1].kind is LBrace))) {
        8
    } else if k is Eof {
        9
    } else if k is Identifier || k is Specializes || k is Redefines {
        7
    } else if (k is LBrace || k is Semicolon) && has_metadata {
        7
    } else if k is RBrace {
        9
    } else {
        10
    }
}

} // verus!
