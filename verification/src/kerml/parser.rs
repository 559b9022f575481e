//! Recursive-descent parser from KerML tokens to the syntax tree.
use vstd::prelude::*;

use crate::kerml::ast::{
    AliasDecl, Declaration, GenericDefinitionDecl, GenericUsageDecl, ImportDecl, PackageDecl,
    ParsedModule, QualifiedName, QualifiedNameView, names_view, strings_view, ImportView,
    AliasView, UsageView, DeclarationView, decls_view, PackageView, DefinitionView,
    imports_view, opt_name_view, definitions_view, decl_view,
};
use crate::kerml::grammar::{
    SpecError, angle_end, balanced_end, balanced_scan, decl_tail, decl_tail_scan, doc_text,
    docs_run, import_path_spec, lemma_qname_bounds, path_tail, opt_specializations_spec,
    classifier_relations_spec, classifier_relation_targets_start, is_dropped_classifier_relation,
    feature_relations_spec, feature_relation_class, feature_relation_targets_start,
    FeatureRelationsView, lemma_targets_bounds, import_spec, alias_spec, opaque_spec,
    FeatureHeadView, additional_types_spec, body_class, classifier_head, feature_def_head,
    feature_head, feature_name_spec, feature_rest_spec, implicit_feature_name, import_members,
    package_head, rename_spec, typing_spec, unprefixed_head, decl_positions, decl_class,
    first_package, qname_spec, qname_tail, targets_spec, targets_tail,
    expr_tail_end, expr_tail_scan, feature_tail_scan, has_eof_from, in_range,
    is_name_kind, is_path_kind, lemma_balanced_scan_bounds, meta_run, modifier_run, mult_end,
    name_text, next_pos, path_text, spec_is_definition_keyword, spec_is_modifier,
    spec_is_relation_keyword_name,
};
use crate::kerml::token::{
    Diagnostic, SourceSpan, Token, TokenKind, ident_text, is_ident, kind_tag, merge_span,
    spec_merge_span,
};
use crate::strmap::StrMap;
use crate::text::{owned, str_eq, usize_to_string};

verus! {

/// Parser state: the tokens, the cursor and the documentation comments
/// read but not yet attached to a declaration.
pub struct Parser {
    tokens: Vec<Token>,
    index: usize,
    pending_docs: Vec<String>,
}

/// The diagnostic `d` is the spec error `e` over the tokens `t`.
pub open spec fn diag_is(d: Diagnostic, e: SpecError, t: Seq<Token>) -> bool {
    &&& d.message@ == e.1
    &&& 0 <= e.0 < t.len()
    &&& d.span == Some(t[e.0].span)
}

impl Parser {
    /// The cursor stands on a token, and an end-of-input token lies at or
    /// after it.
    pub closed spec fn wf(&self) -> bool {
        has_eof_from(self.tokens@, self.index as int)
    }

    /// The tokens being parsed.
    pub closed spec fn toks(&self) -> Seq<Token> {
        self.tokens@
    }

    /// The cursor.
    pub closed spec fn pos(&self) -> int {
        self.index as int
    }

    /// The pending documentation texts.
    pub closed spec fn docs(&self) -> Seq<Seq<char>> {
        strings_view(self.pending_docs@)
    }

    /// `new` continues from `old`: same tokens and pending docs, a
    /// well-formed cursor no earlier than before.
    pub open spec fn keeps(old: &Parser, new: &Parser) -> bool {
        &&& new.toks() == old.toks()
        &&& new.docs() == old.docs()
        &&& new.wf()
        &&& old.pos() <= new.pos()
    }

    proof fn lemma_wf_in_range(&self)
        requires
            self.wf(),
        ensures
            0 <= self.pos() < self.toks().len(),
            self.toks().len() <= usize::MAX,
            !(self.toks()[self.pos()].kind is Eof) ==> has_eof_from(self.toks(), self.pos() + 1),
    {
        assert(self.tokens@.len() == self.tokens.len());
        let e = choose|e: int|
            self.index <= e < self.tokens@.len() && (#[trigger] self.tokens@[e]).kind is Eof;
        if !(self.tokens@[self.index as int].kind is Eof) {
            assert(e != self.index);
            assert(self.index + 1 <= e < self.tokens@.len() && self.tokens@[e].kind is Eof);
        }
    }

    /// A parser at the first of `tokens`.
    pub fn new(tokens: Vec<Token>) -> (p: Parser)
        requires
            has_eof_from(tokens@, 0),
        ensures
            p.wf(),
            p.toks() == tokens@,
            p.pos() == 0,
            p.docs() == Seq::<Seq<char>>::empty(),
    {
        let p = Parser { tokens, index: 0, pending_docs: Vec::new() };
        assert(strings_view(p.pending_docs@) =~= Seq::<Seq<char>>::empty());
        p
    }

    /// The token under the cursor.
    fn current(&self) -> (r: &Token)
        requires
            self.wf(),
        ensures
            *r == self.toks()[self.pos()],
    {
        proof {
            self.lemma_wf_in_range();
        }
        &self.tokens[self.index]
    }

    /// The kind of the token under the cursor.
    fn peek_kind(&self) -> (r: &TokenKind)
        requires
            self.wf(),
        ensures
            *r == self.toks()[self.pos()].kind,
    {
        &self.current().kind
    }

    /// The kind of the token after the cursor, if there is one.
    fn next_kind(&self) -> (r: Option<&TokenKind>)
        requires
            self.wf(),
        ensures
            match r {
                Some(k) => self.pos() + 1 < self.toks().len() && *k == self.toks()[self.pos()
                    + 1].kind,
                None => self.pos() + 1 >= self.toks().len(),
            },
    {
        proof {
            self.lemma_wf_in_range();
        }
        if self.index + 1 < self.tokens.len() {
            Some(&self.tokens[self.index + 1].kind)
        } else {
            None
        }
    }

    /// Whether the cursor is on the end-of-input token.
    fn at_end(&self) -> (r: bool)
        requires
            self.wf(),
        ensures
            r == self.toks()[self.pos()].kind is Eof,
    {
        match self.peek_kind() {
            TokenKind::Eof => true,
            _ => false,
        }
    }

    /// Moves the cursor one token on, unless it is at the end of input.
    fn advance(&mut self)
        requires
            old(self).wf(),
        ensures
            Self::keeps(old(self), final(self)),
            final(self).pos() == next_pos(old(self).toks(), old(self).pos()),
    {
        proof {
            self.lemma_wf_in_range();
        }
        if !self.at_end() {
            self.index = self.index + 1;
        }
    }

    /// A diagnostic at the token under the cursor.
    fn error_here(&self, message: &str) -> (d: Diagnostic)
        requires
            self.wf(),
        ensures
            diag_is(d, (self.pos(), message@), self.toks()),
    {
        proof {
            self.lemma_wf_in_range();
        }
        Diagnostic::new(message, Some(self.current().span))
    }

    /// Takes the token under the cursor if it is of the same variant as
    /// `kind`.
    fn expect(&mut self, kind: TokenKind, message: &str) -> (r: Result<Token, Diagnostic>)
        requires
            old(self).wf(),
        ensures
            Self::keeps(old(self), final(self)),
            ({
                let t = old(self).toks();
                let i = old(self).pos();
                match r {
                    Ok(tok) => kind_tag(t[i].kind) == kind_tag(kind) && tok == t[i]
                        && final(self).pos() == next_pos(t, i),
                    Err(d) => kind_tag(t[i].kind) != kind_tag(kind) && diag_is(d, (i, message@), t)
                        && final(self).pos() == i,
                }
            }),
    {
        proof {
            self.lemma_wf_in_range();
        }
        let token = self.current().duplicate();
        if token.kind.tag() == kind.tag() {
            self.advance();
            Ok(token)
        } else {
            Err(Diagnostic::new(message, Some(token.span)))
        }
    }

    /// Takes the token under the cursor if it is an identifier.
    fn expect_identifier_token(&mut self, message: &str) -> (r: Result<Token, Diagnostic>)
        requires
            old(self).wf(),
        ensures
            Self::keeps(old(self), final(self)),
            ({
                let t = old(self).toks();
                let i = old(self).pos();
                match r {
                    Ok(tok) => t[i].kind is Identifier && tok == t[i] && final(self).pos() == i + 1,
                    Err(d) => !(t[i].kind is Identifier) && diag_is(d, (i, message@), t)
                        && final(self).pos() == i,
                }
            }),
    {
        proof {
            self.lemma_wf_in_range();
        }
        let token = self.current().duplicate();
        match &token.kind {
            TokenKind::Identifier(_) => {
                self.advance();
                Ok(token)
            },
            _ => Err(Diagnostic::new(message, Some(token.span))),
        }
    }

    /// Takes the identifier under the cursor and gives its text.
    fn expect_identifier(&mut self, message: &str) -> (r: Result<String, Diagnostic>)
        requires
            old(self).wf(),
        ensures
            Self::keeps(old(self), final(self)),
            ({
                let t = old(self).toks();
                let i = old(self).pos();
                match r {
                    Ok(s) => t[i].kind is Identifier && s@ == ident_text(t[i].kind)
                        && final(self).pos() == i + 1,
                    Err(d) => !(t[i].kind is Identifier) && diag_is(d, (i, message@), t)
                        && final(self).pos() == i,
                }
            }),
    {
        let token = self.expect_identifier_token(message)?;
        Ok(owned(token_identifier(&token)))
    }

    /// Takes the identifier under the cursor if its text is `expected`;
    /// an identifier with other text is taken and rejected.
    fn expect_identifier_named(&mut self, expected: &str, message: &str) -> (r: Result<
        Token,
        Diagnostic,
    >)
        requires
            old(self).wf(),
        ensures
            Self::keeps(old(self), final(self)),
            ({
                let t = old(self).toks();
                let i = old(self).pos();
                match r {
                    Ok(tok) => is_ident(t[i].kind, expected@) && tok == t[i] && final(self).pos()
                        == i + 1,
                    Err(d) => !is_ident(t[i].kind, expected@) && diag_is(d, (i, message@), t),
                }
            }),
    {
        let token = self.expect_identifier_token(message)?;
        if str_eq(token_identifier(&token), expected) {
            Ok(token)
        } else {
            Err(Diagnostic::new(message, Some(token.span)))
        }
    }

    /// Takes the token under the cursor if it can stand as a name segment.
    fn expect_name_token(&mut self, message: &str) -> (r: Result<Token, Diagnostic>)
        requires
            old(self).wf(),
        ensures
            Self::keeps(old(self), final(self)),
            ({
                let t = old(self).toks();
                let i = old(self).pos();
                match r {
                    Ok(tok) => is_name_kind(t[i].kind) && tok == t[i] && final(self).pos() == i
                        + 1,
                    Err(d) => !is_name_kind(t[i].kind) && diag_is(d, (i, message@), t)
                        && final(self).pos() == i,
                }
            }),
    {
        proof {
            self.lemma_wf_in_range();
        }
        let token = self.current().duplicate();
        match &token.kind {
            TokenKind::Identifier(_) | TokenKind::String(_) | TokenKind::Dollar => {
                self.advance();
                Ok(token)
            },
            _ => Err(Diagnostic::new(message, Some(token.span))),
        }
    }

    /// Takes the token under the cursor if it can stand as an import path
    /// segment (`*` and `**` only where wildcards are allowed).
    fn expect_path_segment(&mut self, message: &str, allow_wildcards: bool) -> (r: Result<
        Token,
        Diagnostic,
    >)
        requires
            old(self).wf(),
        ensures
            Self::keeps(old(self), final(self)),
            ({
                let t = old(self).toks();
                let i = old(self).pos();
                let ok = t[i].kind is Identifier || (allow_wildcards && is_path_kind(t[i].kind));
                match r {
                    Ok(tok) => ok && tok == t[i] && final(self).pos() == i + 1,
                    Err(d) => !ok && diag_is(d, (i, message@), t) && final(self).pos() == i,
                }
            }),
    {
        proof {
            self.lemma_wf_in_range();
        }
        let token = self.current().duplicate();
        let ok = match &token.kind {
            TokenKind::Identifier(_) => true,
            TokenKind::Star | TokenKind::DoubleStar => allow_wildcards,
            _ => false,
        };
        if ok {
            self.advance();
            Ok(token)
        } else {
            Err(Diagnostic::new(message, Some(token.span)))
        }
    }

    /// Reads the documentation comments under the cursor into the pending
    /// docs.
    #[verifier::loop_isolation(false)]
    fn collect_docs(&mut self)
        requires
            old(self).wf(),
        ensures
            final(self).toks() == old(self).toks(),
            final(self).wf(),
            final(self).pos() == old(self).pos() + docs_run(old(self).toks(), old(self).pos()).len(),
            final(self).docs() == old(self).docs() + docs_run(old(self).toks(), old(self).pos()),
    {
        let ghost t = self.tokens@;
        let ghost i0 = self.index as int;
        let ghost d0 = strings_view(self.pending_docs@);
        loop
            invariant
                self.toks() == t,
                self.wf(),
                i0 <= self.pos(),
                self.pos() + docs_run(t, self.pos()).len() == i0 + docs_run(t, i0).len(),
                self.docs() + docs_run(t, self.pos()) == d0 + docs_run(t, i0),
            decreases t.len() - self.pos(),
        {
            proof {
                self.lemma_wf_in_range();
            }
            let kind = self.peek_kind().duplicate();
            match kind {
                TokenKind::Doc(text) => {
                    let ghost before = self.docs();
                    self.pending_docs.push(text);
                    assert(self.docs() == before.push(doc_text(t[self.pos()].kind)));
                    self.advance();
                    assert(docs_run(t, self.pos() - 1) == seq![doc_text(t[self.pos() - 1].kind)]
                        + docs_run(t, self.pos()));
                    assert(before.push(doc_text(t[self.pos() - 1].kind)) + docs_run(t, self.pos())
                        =~= before + docs_run(t, self.pos() - 1));
                },
                _ => {
                    assert(docs_run(t, self.pos()) =~= Seq::<Seq<char>>::empty());
                    assert(self.docs() + docs_run(t, self.pos()) =~= self.docs());
                    break ;
                },
            }
        }
    }

    /// Reads the run of modifier keywords under the cursor.
    #[verifier::loop_isolation(false)]
    fn parse_modifiers(&mut self) -> (r: Vec<String>)
        requires
            old(self).wf(),
        ensures
            Self::keeps(old(self), final(self)),
            strings_view(r@) == modifier_run(old(self).toks(), old(self).pos()),
            final(self).pos() == old(self).pos() + r@.len(),
    {
        let ghost t = self.tokens@;
        let ghost i0 = self.index as int;
        let mut modifiers: Vec<String> = Vec::new();
        loop
            invariant
                self.toks() == t,
                self.docs() == old(self).docs(),
                self.wf(),
                self.pos() == i0 + modifiers@.len(),
                strings_view(modifiers@) + modifier_run(t, self.pos()) == modifier_run(t, i0),
            decreases t.len() - self.pos(),
        {
            proof {
                self.lemma_wf_in_range();
            }
            let kind = self.peek_kind().duplicate();
            match kind {
                TokenKind::Identifier(value) => {
                    if is_modifier(value.as_str()) {
                        let ghost before = strings_view(modifiers@);
                        modifiers.push(value);
                        assert(strings_view(modifiers@) == before.push(
                            ident_text(t[self.pos()].kind),
                        ));
                        self.advance();
                        assert(before.push(ident_text(t[self.pos() - 1].kind)) + modifier_run(
                            t,
                            self.pos(),
                        ) =~= before + modifier_run(t, self.pos() - 1));
                    } else {
                        assert(modifier_run(t, self.pos()) =~= Seq::<Seq<char>>::empty());
                        break ;
                    }
                },
                _ => {
                    assert(modifier_run(t, self.pos()) =~= Seq::<Seq<char>>::empty());
                    break ;
                },
            }
        }
        assert(strings_view(modifiers@) =~= modifier_run(t, i0));
        modifiers
    }

    /// Reads the metadata prefixes (`@Name`, `#Name`) under the cursor.
    #[verifier::loop_isolation(false)]
    fn parse_metadata_prefixes(&mut self) -> (r: Vec<String>)
        requires
            old(self).wf(),
        ensures
            Self::keeps(old(self), final(self)),
            strings_view(r@) == meta_run(old(self).toks(), old(self).pos()).0,
            final(self).pos() == meta_run(old(self).toks(), old(self).pos()).1,
            r@.len() > 0 ==> old(self).pos() < final(self).pos(),
    {
        let ghost t = self.tokens@;
        let ghost i0 = self.index as int;
        let mut prefixes: Vec<String> = Vec::new();
        loop
            invariant
                self.toks() == t,
                self.docs() == old(self).docs(),
                self.wf(),
                i0 <= self.pos(),
                prefixes@.len() > 0 ==> i0 < self.pos(),
                meta_run(t, self.pos()).1 == meta_run(t, i0).1,
                strings_view(prefixes@) + meta_run(t, self.pos()).0 == meta_run(t, i0).0,
            decreases t.len() - self.pos(),
        {
            proof {
                self.lemma_wf_in_range();
            }
            let is_prefix = match self.peek_kind() {
                TokenKind::At | TokenKind::Hash => true,
                _ => false,
            };
            if !is_prefix {
                assert(meta_run(t, self.pos()).0 =~= Seq::<Seq<char>>::empty());
                break ;
            }
            let ghost j = self.pos();
            let ghost before = strings_view(prefixes@);
            self.advance();
            proof {
                self.lemma_wf_in_range();
            }
            let kind = self.peek_kind().duplicate();
            match kind {
                TokenKind::Identifier(value) => {
                    self.advance();
                    prefixes.push(value);
                },
                TokenKind::String(value) => {
                    self.advance();
                    prefixes.push(value);
                },
                _ => {
                    prefixes.push(owned("metadata"));
                },
            }
            assert(strings_view(prefixes@) == before.push(meta_run(t, j).0[0]));
            assert(before.push(meta_run(t, j).0[0]) + meta_run(t, self.pos()).0 =~= before
                + meta_run(t, j).0);
        }
        assert(strings_view(prefixes@) =~= meta_run(t, i0).0);
        prefixes
    }

    /// Skips the bracketed group that opens under the cursor, if one does.
    #[verifier::loop_isolation(false)]
    fn skip_balanced(&mut self, open: TokenKind, close: TokenKind)
        requires
            old(self).wf(),
        ensures
            Self::keeps(old(self), final(self)),
            final(self).pos() == balanced_end(
                old(self).toks(),
                old(self).pos(),
                kind_tag(open),
                kind_tag(close),
            ),
    {
        let ghost t = self.tokens@;
        let open_tag = open.tag();
        let close_tag = close.tag();
        if self.peek_kind().tag() != open_tag {
            return ;
        }
        let mut depth: usize = 0;
        let ghost i0 = self.index as int;
        proof {
            self.lemma_wf_in_range();
        }
        loop
            invariant
                self.toks() == t,
                self.docs() == old(self).docs(),
                self.wf(),
                i0 <= self.pos(),
                depth <= self.pos(),
                i0 == old(self).pos(),
                balanced_scan(t, self.pos(), open_tag, close_tag, depth as nat) == balanced_end(
                    t,
                    i0,
                    open_tag,
                    close_tag,
                ),
            decreases t.len() - self.pos(),
        {
            proof {
                self.lemma_wf_in_range();
            }
            if self.at_end() {
                break ;
            }
            let tag = self.peek_kind().tag();
            if tag == open_tag {
                depth = depth + 1;
            } else if tag == close_tag {
                let d = if depth == 0 { 0 } else { depth - 1 };
                depth = d;
                self.advance();
                if depth == 0 {
                    break ;
                }
                continue ;
            }
            self.advance();
        }
    }

    /// Skips the `<...>` groups under the cursor.
    #[verifier::loop_isolation(false)]
    fn skip_angle_metadata(&mut self)
        requires
            old(self).wf(),
        ensures
            Self::keeps(old(self), final(self)),
            final(self).pos() == angle_end(old(self).toks(), old(self).pos()),
    {
        let ghost t = self.tokens@;
        let ghost i0 = self.index as int;
        loop
            invariant
                self.toks() == t,
                self.docs() == old(self).docs(),
                self.wf(),
                i0 <= self.pos(),
                angle_end(t, self.pos()) == angle_end(t, i0),
            decreases t.len() - self.pos(),
        {
            proof {
                self.lemma_wf_in_range();
            }
            let is_angle = match self.peek_kind() {
                TokenKind::LAngle => true,
                _ => false,
            };
            if !is_angle {
                break ;
            }
            proof {
                lemma_balanced_scan_bounds(t, self.pos(), 14, 15, 0);
            }
            self.skip_balanced(TokenKind::LAngle, TokenKind::RAngle);
        }
    }

    /// Skips a multiplicity `[...]` under the cursor, if there is one.
    fn skip_multiplicity(&mut self)
        requires
            old(self).wf(),
        ensures
            Self::keeps(old(self), final(self)),
            final(self).pos() == mult_end(old(self).toks(), old(self).pos()),
    {
        let is_bracket = match self.peek_kind() {
            TokenKind::LBracket => true,
            _ => false,
        };
        if is_bracket {
            self.skip_balanced(TokenKind::LBracket, TokenKind::RBracket);
        }
    }

    /// Skips a `= expression` tail under the cursor, up to the `;` or `}`
    /// that ends it.
    #[verifier::loop_isolation(false)]
    fn skip_expression_tail(&mut self)
        requires
            old(self).wf(),
        ensures
            Self::keeps(old(self), final(self)),
            final(self).pos() == expr_tail_end(old(self).toks(), old(self).pos()),
    {
        let ghost t = self.tokens@;
        let ghost i0 = self.index as int;
        let is_equals = match self.peek_kind() {
            TokenKind::Equals => true,
            _ => false,
        };
        if !is_equals {
            return ;
        }
        let mut brace_depth: usize = 0;
        let mut paren_depth: usize = 0;
        let mut bracket_depth: usize = 0;
        let mut angle_depth: usize = 0;
        loop
            invariant
                self.toks() == t,
                self.docs() == old(self).docs(),
                self.wf(),
                i0 <= self.pos(),
                brace_depth + paren_depth + bracket_depth + angle_depth <= self.pos(),
                expr_tail_scan(
                    t,
                    self.pos(),
                    brace_depth as nat,
                    paren_depth as nat,
                    bracket_depth as nat,
                    angle_depth as nat,
                ) == expr_tail_end(t, i0),
            decreases t.len() - self.pos(),
        {
            proof {
                self.lemma_wf_in_range();
            }
            let zero = brace_depth == 0 && paren_depth == 0 && bracket_depth == 0 && angle_depth
                == 0;
            match self.peek_kind() {
                TokenKind::Eof => {
                    break ;
                },
                TokenKind::Semicolon => {
                    if zero {
                        break ;
                    }
                },
                TokenKind::RBrace => {
                    if zero {
                        break ;
                    }
                    brace_depth = if brace_depth == 0 { 0 } else { brace_depth - 1 };
                },
                TokenKind::LBrace => {
                    brace_depth = brace_depth + 1;
                },
                TokenKind::LParen => {
                    paren_depth = paren_depth + 1;
                },
                TokenKind::RParen => {
                    paren_depth = if paren_depth == 0 { 0 } else { paren_depth - 1 };
                },
                TokenKind::LBracket => {
                    bracket_depth = bracket_depth + 1;
                },
                TokenKind::RBracket => {
                    bracket_depth = if bracket_depth == 0 { 0 } else { bracket_depth - 1 };
                },
                TokenKind::LAngle => {
                    angle_depth = angle_depth + 1;
                },
                TokenKind::RAngle => {
                    angle_depth = if angle_depth == 0 { 0 } else { angle_depth - 1 };
                },
                _ => {},
            }
            self.advance();
        }
    }

    /// Skips the rest of a feature declaration up to the `;`, `{` or `}`
    /// that ends it.
    #[verifier::loop_isolation(false)]
    fn skip_feature_tail(&mut self)
        requires
            old(self).wf(),
        ensures
            Self::keeps(old(self), final(self)),
            final(self).pos() == feature_tail_scan(old(self).toks(), old(self).pos(), 0, 0, 0),
    {
        let ghost t = self.tokens@;
        let ghost i0 = self.index as int;
        let mut paren_depth: usize = 0;
        let mut bracket_depth: usize = 0;
        let mut angle_depth: usize = 0;
        loop
            invariant
                self.toks() == t,
                self.docs() == old(self).docs(),
                self.wf(),
                i0 <= self.pos(),
                paren_depth + bracket_depth + angle_depth <= self.pos(),
                feature_tail_scan(
                    t,
                    self.pos(),
                    paren_depth as nat,
                    bracket_depth as nat,
                    angle_depth as nat,
                ) == feature_tail_scan(t, i0, 0, 0, 0),
            decreases t.len() - self.pos(),
        {
            proof {
                self.lemma_wf_in_range();
            }
            if self.at_end() {
                break ;
            }
            let zero = paren_depth == 0 && bracket_depth == 0 && angle_depth == 0;
            match self.peek_kind() {
                TokenKind::Semicolon | TokenKind::LBrace | TokenKind::RBrace => {
                    if zero {
                        break ;
                    }
                },
                TokenKind::LParen => {
                    paren_depth = paren_depth + 1;
                },
                TokenKind::RParen => {
                    paren_depth = if paren_depth == 0 { 0 } else { paren_depth - 1 };
                },
                TokenKind::LBracket => {
                    bracket_depth = bracket_depth + 1;
                },
                TokenKind::RBracket => {
                    bracket_depth = if bracket_depth == 0 { 0 } else { bracket_depth - 1 };
                },
                TokenKind::LAngle => {
                    angle_depth = angle_depth + 1;
                },
                TokenKind::RAngle => {
                    angle_depth = if angle_depth == 0 { 0 } else { angle_depth - 1 };
                },
                _ => {},
            }
            self.advance();
        }
    }

    /// Consumes the rest of a declaration the grammar only delimits: up to
    /// and including a `;` at depth zero, up to the `}` that closes a body
    /// begun under the cursor, or up to an unmatched `}`. Gives the last
    /// token looked at.
    #[verifier::loop_isolation(false)]
    fn consume_declaration_tail(&mut self) -> (end: Token)
        requires
            old(self).wf(),
        ensures
            Self::keeps(old(self), final(self)),
            final(self).pos() == decl_tail(old(self).toks(), old(self).pos()).0,
            end == old(self).toks()[decl_tail(old(self).toks(), old(self).pos()).1],
    {
        let ghost t = self.tokens@;
        let ghost i0 = self.index as int;
        proof {
            self.lemma_wf_in_range();
        }
        let mut end = self.current().duplicate();
        let ghost mut end_idx: int = i0;
        let started_with_lbrace = match self.peek_kind() {
            TokenKind::LBrace => true,
            _ => false,
        };
        let mut brace_depth: usize = 0;
        let mut paren_depth: usize = 0;
        let mut bracket_depth: usize = 0;
        let mut angle_depth: usize = 0;
        loop
            invariant
                self.toks() == t,
                self.docs() == old(self).docs(),
                self.wf(),
                i0 <= self.pos(),
                i0 == old(self).pos(),
                0 <= end_idx < t.len(),
                end == t[end_idx],
                started_with_lbrace == (in_range(t, i0) && t[i0].kind is LBrace),
                brace_depth + paren_depth + bracket_depth + angle_depth <= self.pos(),
                decl_tail_scan(
                    t,
                    self.pos(),
                    started_with_lbrace,
                    brace_depth as nat,
                    paren_depth as nat,
                    bracket_depth as nat,
                    angle_depth as nat,
                    end_idx,
                ) == decl_tail(t, i0),
            decreases t.len() - self.pos(),
        {
            proof {
                self.lemma_wf_in_range();
            }
            if self.at_end() {
                break ;
            }
            end = self.current().duplicate();
            proof {
                end_idx = self.pos();
            }
            match self.peek_kind() {
                TokenKind::LBrace => {
                    brace_depth = brace_depth + 1;
                },
                TokenKind::RBrace => {
                    if brace_depth == 0 {
                        break ;
                    }
                    brace_depth = brace_depth - 1;
                },
                TokenKind::LParen => {
                    paren_depth = paren_depth + 1;
                },
                TokenKind::RParen => {
                    paren_depth = if paren_depth == 0 { 0 } else { paren_depth - 1 };
                },
                TokenKind::LBracket => {
                    bracket_depth = bracket_depth + 1;
                },
                TokenKind::RBracket => {
                    bracket_depth = if bracket_depth == 0 { 0 } else { bracket_depth - 1 };
                },
                TokenKind::LAngle => {
                    angle_depth = angle_depth + 1;
                },
                TokenKind::RAngle => {
                    angle_depth = if angle_depth == 0 { 0 } else { angle_depth - 1 };
                },
                TokenKind::Semicolon => {
                    if brace_depth == 0 && paren_depth == 0 && bracket_depth == 0 && angle_depth
                        == 0 {
                        self.advance();
                        return end;
                    }
                },
                _ => {},
            }
            self.advance();
            let end_is_rbrace = match end.kind {
                TokenKind::RBrace => true,
                _ => false,
            };
            if started_with_lbrace && end_is_rbrace && brace_depth == 0 {
                return end;
            }
        }
        end
    }
}

impl Parser {
    /// Reads a qualified name `A::B.C` under the cursor.
    #[verifier::loop_isolation(false)]
    fn parse_qualified_name(&mut self) -> (r: Result<QualifiedName, Diagnostic>)
        requires
            old(self).wf(),
        ensures
            Self::keeps(old(self), final(self)),
            match qname_spec(old(self).toks(), old(self).pos()) {
                Ok((qv, end)) => r matches Ok(q) && q@ == qv && final(self).pos() == end,
                Err(e) => r matches Err(d) && diag_is(d, e, old(self).toks()),
            },
    {
        let ghost t = self.tokens@;
        let ghost i0 = self.index as int;
        let first = self.expect_name_token("expected name")?;
        let mut segments: Vec<String> = Vec::new();
        segments.push(owned(token_name(&first)));
        let mut end = first.span;
        loop
            invariant
                self.toks() == t,
                self.docs() == old(self).docs(),
                self.wf(),
                i0 < self.pos(),
                i0 == old(self).pos(),
                is_name_kind(t[i0].kind),
                first == t[i0],
                end == t[self.pos() - 1].span,
                segments@.len() >= 1,
                strings_view(segments@)[0] == name_text(t[i0].kind),
                match qname_tail(t, self.pos()) {
                    Ok((s2, e)) => qname_tail(t, i0 + 1) == Ok::<(Seq<Seq<char>>, int), SpecError>(
                        (strings_view(segments@).drop_first() + s2, e),
                    ),
                    Err(x) => qname_tail(t, i0 + 1) == Err::<(Seq<Seq<char>>, int), SpecError>(x),
                },
            decreases t.len() - self.pos(),
        {
            proof {
                self.lemma_wf_in_range();
            }
            let is_sep = match self.peek_kind() {
                TokenKind::ScopeSep | TokenKind::Dot => true,
                _ => false,
            };
            if !is_sep {
                break ;
            }
            let ghost j = self.pos();
            let ghost before = strings_view(segments@);
            self.advance();
            let next = self.expect_name_token("expected name segment")?;
            segments.push(owned(token_name(&next)));
            end = next.span;
            proof {
                assert(strings_view(segments@) == before.push(name_text(t[j + 1].kind)));
                assert(strings_view(segments@).drop_first() =~= before.drop_first().push(
                    name_text(t[j + 1].kind),
                ));
                match qname_tail(t, j + 2) {
                    Ok((s2, e)) => {
                        assert(before.drop_first().push(name_text(t[j + 1].kind)) + s2
                            =~= before.drop_first() + (seq![name_text(t[j + 1].kind)] + s2));
                    },
                    Err(x) => {},
                }
            }
        }
        let ghost segs = strings_view(segments@);
        assert(seq![name_text(t[i0].kind)] + segs.drop_first() =~= segs);
        Ok(QualifiedName { segments, span: merge_span(&first.span, &end) })
    }

    /// Reads an import path `A::B::*` under the cursor.
    #[verifier::loop_isolation(false)]
    fn parse_import_path(&mut self) -> (r: Result<QualifiedName, Diagnostic>)
        requires
            old(self).wf(),
        ensures
            Self::keeps(old(self), final(self)),
            match import_path_spec(old(self).toks(), old(self).pos()) {
                Ok((qv, end)) => r matches Ok(q) && q@ == qv && final(self).pos() == end,
                Err(e) => r matches Err(d) && diag_is(d, e, old(self).toks()),
            },
    {
        let ghost t = self.tokens@;
        let ghost i0 = self.index as int;
        let first = self.expect_identifier_token("expected import path")?;
        let mut segments: Vec<String> = Vec::new();
        segments.push(owned(token_identifier(&first)));
        let mut end = first.span;
        loop
            invariant
                self.toks() == t,
                self.docs() == old(self).docs(),
                self.wf(),
                i0 < self.pos(),
                i0 == old(self).pos(),
                t[i0].kind is Identifier,
                first == t[i0],
                end == t[self.pos() - 1].span,
                segments@.len() >= 1,
                strings_view(segments@)[0] == ident_text(t[i0].kind),
                match path_tail(t, self.pos()) {
                    Ok((s2, e)) => path_tail(t, i0 + 1) == Ok::<(Seq<Seq<char>>, int), SpecError>(
                        (strings_view(segments@).drop_first() + s2, e),
                    ),
                    Err(x) => path_tail(t, i0 + 1) == Err::<(Seq<Seq<char>>, int), SpecError>(x),
                },
            decreases t.len() - self.pos(),
        {
            proof {
                self.lemma_wf_in_range();
            }
            let is_sep = match self.peek_kind() {
                TokenKind::ScopeSep | TokenKind::Dot => true,
                _ => false,
            };
            if !is_sep {
                break ;
            }
            let ghost j = self.pos();
            let ghost before = strings_view(segments@);
            self.advance();
            let next = self.expect_path_segment("expected import path segment", true)?;
            segments.push(owned(token_path_segment(&next)));
            end = next.span;
            proof {
                assert(strings_view(segments@) == before.push(path_text(t[j + 1].kind)));
                assert(strings_view(segments@).drop_first() =~= before.drop_first().push(
                    path_text(t[j + 1].kind),
                ));
                match path_tail(t, j + 2) {
                    Ok((s2, e)) => {
                        assert(before.drop_first().push(path_text(t[j + 1].kind)) + s2
                            =~= before.drop_first() + (seq![path_text(t[j + 1].kind)] + s2));
                    },
                    Err(x) => {},
                }
            }
        }
        let ghost segs = strings_view(segments@);
        assert(seq![ident_text(t[i0].kind)] + segs.drop_first() =~= segs);
        Ok(QualifiedName { segments, span: merge_span(&first.span, &end) })
    }

    /// Reads a comma-separated list of qualified names under the cursor.
    #[verifier::loop_isolation(false)]
    fn parse_relation_targets(&mut self) -> (r: Result<Vec<QualifiedName>, Diagnostic>)
        requires
            old(self).wf(),
        ensures
            Self::keeps(old(self), final(self)),
            match targets_spec(old(self).toks(), old(self).pos()) {
                Ok((qs, end)) => r matches Ok(v) && names_view(v@) == qs && final(self).pos()
                    == end,
                Err(e) => r matches Err(d) && diag_is(d, e, old(self).toks()),
            },
    {
        let ghost t = self.tokens@;
        let ghost i0 = self.index as int;
        let first = self.parse_qualified_name()?;
        let mut targets: Vec<QualifiedName> = Vec::new();
        targets.push(first);
        proof {
            lemma_qname_bounds(t, i0);
            assert(names_view(targets@) =~= seq![first@]);
        }
        loop
            invariant
                self.toks() == t,
                self.docs() == old(self).docs(),
                self.wf(),
                i0 < self.pos(),
                i0 == old(self).pos(),
                qname_spec(t, i0) matches Ok((q, e)) && targets@.len() >= 1 && names_view(
                    targets@,
                )[0] == q,
                match targets_tail(t, self.pos()) {
                    Ok((qs2, e)) => targets_spec(t, i0) == Ok::<
                        (Seq<QualifiedNameView>, int),
                        SpecError,
                    >((names_view(targets@) + qs2, e)),
                    Err(x) => targets_spec(t, i0) == Err::<
                        (Seq<QualifiedNameView>, int),
                        SpecError,
                    >(x),
                },
            decreases t.len() - self.pos(),
        {
            proof {
                self.lemma_wf_in_range();
            }
            let is_comma = match self.peek_kind() {
                TokenKind::Comma => true,
                _ => false,
            };
            if !is_comma {
                proof {
                    assert(names_view(targets@) + Seq::<QualifiedNameView>::empty() =~= names_view(
                        targets@,
                    ));
                }
                break ;
            }
            let ghost j = self.pos();
            let ghost before = names_view(targets@);
            self.advance();
            let next = self.parse_qualified_name()?;
            targets.push(next);
            proof {
                assert(names_view(targets@) =~= before.push(next@));
                match qname_spec(t, j + 1) {
                    Ok((q, e)) => {
                        match targets_tail(t, e) {
                            Ok((qs2, e2)) => {
                                assert(before.push(q) + qs2 =~= before + (seq![q] + qs2));
                            },
                            Err(x) => {},
                        }
                    },
                    Err(x) => {},
                }
            }
        }
        Ok(targets)
    }
}

/// The relation clauses read after a feature's type.
struct FeatureRelations {
    specializes: Vec<QualifiedName>,
    subsets: Vec<QualifiedName>,
    redefines: Vec<QualifiedName>,
}

/// The view of collected feature relations.
spec fn relations_view(r: FeatureRelations) -> FeatureRelationsView {
    FeatureRelationsView {
        specializes: names_view(r.specializes@),
        subsets: names_view(r.subsets@),
        redefines: names_view(r.redefines@),
    }
}

/// Whether the identifier under the cursor has text `text`.
fn peek_is_ident(p: &Parser, text: &str) -> (r: bool)
    requires
        p.wf(),
    ensures
        r == is_ident(p.toks()[p.pos()].kind, text@),
{
    match p.peek_kind() {
        TokenKind::Identifier(value) => str_eq(value.as_str(), text),
        _ => false,
    }
}

/// Whether `value` names a classifier relation whose targets are dropped.
fn is_dropped_classifier_relation_name(value: &str) -> (r: bool)
    ensures
        r == is_dropped_classifier_relation(value@),
{
    str_eq(value, "unions") || str_eq(value, "intersects") || str_eq(value, "differences")
        || str_eq(value, "disjoint") || str_eq(value, "conjugates") || str_eq(value, "inverse")
        || str_eq(value, "chains") || str_eq(value, "ordered")
}

/// Which feature relation clause a token starts (see
/// `feature_relation_class`).
fn feature_relation_class_of(kind: &TokenKind) -> (c: u8)
    ensures
        c as int == feature_relation_class(*kind),
{
    match kind {
        TokenKind::Specializes => 1,
        TokenKind::Redefines => 2,
        TokenKind::Identifier(value) => {
            let v = value.as_str();
            if str_eq(v, "specializes") {
                1
            } else if str_eq(v, "redefines") {
                2
            } else if str_eq(v, "subsets") {
                3
            } else if str_eq(v, "typed") {
                4
            } else if str_eq(v, "references") {
                5
            } else if str_eq(v, "featured") {
                6
            } else if str_eq(v, "unions") || str_eq(v, "intersects") || str_eq(v, "differences")
                || str_eq(v, "disjoint") || str_eq(v, "conjugates") {
                7
            } else {
                0
            }
        },
        _ => 0,
    }
}

/// Moves every name of `from` onto the end of `to`.
fn extend_names(to: &mut Vec<QualifiedName>, from: Vec<QualifiedName>)
    ensures
        names_view(final(to)@) == names_view(old(to)@) + names_view(from@),
{
    let mut from = from;
    let ghost f = from@;
    to.append(&mut from);
    assert(names_view(to@) =~= names_view(old(to)@) + names_view(f));
}

impl Parser {
    /// Reads an optional `specializes A, B` (or `:> A, B`) clause.
    fn parse_optional_specializations(&mut self) -> (r: Result<Vec<QualifiedName>, Diagnostic>)
        requires
            old(self).wf(),
        ensures
            Self::keeps(old(self), final(self)),
            match opt_specializations_spec(old(self).toks(), old(self).pos()) {
                Ok((qs, end)) => r matches Ok(v) && names_view(v@) == qs && final(self).pos()
                    == end,
                Err(e) => r matches Err(d) && diag_is(d, e, old(self).toks()),
            },
    {
        proof {
            self.lemma_wf_in_range();
        }
        let is_spec = match self.peek_kind() {
            TokenKind::Specializes => true,
            _ => false,
        } || peek_is_ident(self, "specializes");
        if is_spec {
            self.advance();
            self.parse_relation_targets()
        } else {
            let v: Vec<QualifiedName> = Vec::new();
            assert(names_view(v@) =~= Seq::<QualifiedNameView>::empty());
            Ok(v)
        }
    }

    /// Reads the relation clauses after a classifier name, keeping the
    /// specialized names.
    #[verifier::loop_isolation(false)]
    fn parse_classifier_relations(&mut self) -> (r: Result<Vec<QualifiedName>, Diagnostic>)
        requires
            old(self).wf(),
        ensures
            Self::keeps(old(self), final(self)),
            match classifier_relations_spec(old(self).toks(), old(self).pos()) {
                Ok((qs, end)) => r matches Ok(v) && names_view(v@) == qs && final(self).pos()
                    == end,
                Err(e) => r matches Err(d) && diag_is(d, e, old(self).toks()),
            },
    {
        let ghost t = self.tokens@;
        let ghost i0 = self.index as int;
        let mut specializes: Vec<QualifiedName> = Vec::new();
        assert(names_view(specializes@) =~= Seq::<QualifiedNameView>::empty());
        loop
            invariant
                self.toks() == t,
                self.docs() == old(self).docs(),
                self.wf(),
                i0 <= self.pos(),
                i0 == old(self).pos(),
                match classifier_relations_spec(t, self.pos()) {
                    Ok((qs2, e)) => classifier_relations_spec(t, i0) == Ok::<
                        (Seq<QualifiedNameView>, int),
                        SpecError,
                    >((names_view(specializes@) + qs2, e)),
                    Err(x) => classifier_relations_spec(t, i0) == Err::<
                        (Seq<QualifiedNameView>, int),
                        SpecError,
                    >(x),
                },
            decreases t.len() - self.pos(),
        {
            proof {
                self.lemma_wf_in_range();
            }
            let ghost j = self.pos();
            let kind = self.peek_kind().duplicate();
            let is_spec = match &kind {
                TokenKind::Specializes => true,
                TokenKind::Identifier(value) => str_eq(value.as_str(), "specializes"),
                _ => false,
            };
            if is_spec {
                self.advance();
                let targets = self.parse_relation_targets()?;
                let ghost before = names_view(specializes@);
                extend_names(&mut specializes, targets);
                proof {
                    lemma_targets_bounds(t, j + 1);
                    match targets_spec(t, j + 1) {
                        Ok((qs, e)) => {
                            match classifier_relations_spec(t, e) {
                                Ok((rest, e2)) => {
                                    assert(before + qs + rest =~= before + (qs + rest));
                                },
                                Err(x) => {},
                            }
                        },
                        Err(x) => {},
                    }
                }
                continue ;
            }
            let dropped = match &kind {
                TokenKind::Identifier(value) => is_dropped_classifier_relation_name(value.as_str()),
                _ => false,
            };
            if !dropped {
                assert(names_view(specializes@) + Seq::<QualifiedNameView>::empty() =~= names_view(
                    specializes@,
                ));
                break ;
            }
            let is_disjoint = match &kind {
                TokenKind::Identifier(value) => str_eq(value.as_str(), "disjoint"),
                _ => false,
            };
            let is_inverse = match &kind {
                TokenKind::Identifier(value) => str_eq(value.as_str(), "inverse"),
                _ => false,
            };
            self.advance();
            if is_disjoint {
                if peek_is_ident(self, "from") {
                    self.advance();
                }
            } else if is_inverse && peek_is_ident(self, "of") {
                self.advance();
            }
            assert(self.pos() == classifier_relation_targets_start(t, j, ident_text(t[j].kind)));
            let _ = self.parse_relation_targets()?;
            proof {
                lemma_targets_bounds(t, self.pos());
            }
        }
        Ok(specializes)
    }

    /// Reads the relation clauses after a feature's type.
    #[verifier::loop_isolation(false)]
    fn parse_optional_feature_relations(&mut self) -> (r: Result<FeatureRelations, Diagnostic>)
        requires
            old(self).wf(),
        ensures
            Self::keeps(old(self), final(self)),
            match feature_relations_spec(old(self).toks(), old(self).pos()) {
                Ok((rv, end)) => r matches Ok(v) && relations_view(v) == rv && final(self).pos()
                    == end,
                Err(e) => r matches Err(d) && diag_is(d, e, old(self).toks()),
            },
    {
        let ghost t = self.tokens@;
        let ghost i0 = self.index as int;
        let mut relations = FeatureRelations {
            specializes: Vec::new(),
            subsets: Vec::new(),
            redefines: Vec::new(),
        };
        assert(names_view(relations.specializes@) =~= Seq::<QualifiedNameView>::empty());
        assert(names_view(relations.subsets@) =~= Seq::<QualifiedNameView>::empty());
        assert(names_view(relations.redefines@) =~= Seq::<QualifiedNameView>::empty());
        loop
            invariant
                self.toks() == t,
                self.docs() == old(self).docs(),
                self.wf(),
                i0 <= self.pos(),
                i0 == old(self).pos(),
                match feature_relations_spec(t, self.pos()) {
                    Ok((rv, e)) => feature_relations_spec(t, i0) == Ok::<
                        (FeatureRelationsView, int),
                        SpecError,
                    >(
                        (
                            FeatureRelationsView {
                                specializes: names_view(relations.specializes@) + rv.specializes,
                                subsets: names_view(relations.subsets@) + rv.subsets,
                                redefines: names_view(relations.redefines@) + rv.redefines,
                            },
                            e,
                        ),
                    ),
                    Err(x) => feature_relations_spec(t, i0) == Err::<
                        (FeatureRelationsView, int),
                        SpecError,
                    >(x),
                },
            decreases t.len() - self.pos(),
        {
            proof {
                self.lemma_wf_in_range();
            }
            let ghost j = self.pos();
            let kind = self.peek_kind().duplicate();
            let c = feature_relation_class_of(&kind);
            if c == 0 {
                proof {
                    let rv = relations_view(relations);
                    assert(rv.specializes + Seq::<QualifiedNameView>::empty() =~= rv.specializes);
                    assert(rv.subsets + Seq::<QualifiedNameView>::empty() =~= rv.subsets);
                    assert(rv.redefines + Seq::<QualifiedNameView>::empty() =~= rv.redefines);
                }
                break ;
            }
            let is_disjoint = match &kind {
                TokenKind::Identifier(value) => str_eq(value.as_str(), "disjoint"),
                _ => false,
            };
            self.advance();
            if c == 4 {
                self.expect_identifier_named("by", "expected `by` after `typed`")?;
            } else if c == 6 {
                self.expect_identifier_named("by", "expected `by` after `featured`")?;
            } else if c == 7 && is_disjoint && peek_is_ident(self, "from") {
                self.advance();
            }
            assert(feature_relation_targets_start(t, j) == Ok::<int, SpecError>(self.pos()));
            let targets = self.parse_relation_targets()?;
            let ghost before = relations_view(relations);
            let ghost tv = names_view(targets@);
            if c == 1 || c == 4 {
                extend_names(&mut relations.specializes, targets);
            } else if c == 2 {
                extend_names(&mut relations.redefines, targets);
            } else if c == 3 {
                extend_names(&mut relations.subsets, targets);
            }
            proof {
                lemma_targets_bounds(t, feature_relation_targets_start(t, j)->Ok_0);
                match feature_relations_spec(t, self.pos()) {
                    Ok((rv, e2)) => {
                        assert(before.specializes + tv + rv.specializes =~= before.specializes + (
                        tv + rv.specializes));
                        assert(before.subsets + tv + rv.subsets =~= before.subsets + (tv
                            + rv.subsets));
                        assert(before.redefines + tv + rv.redefines =~= before.redefines + (tv
                            + rv.redefines));
                    },
                    Err(x) => {},
                }
            }
        }
        Ok(relations)
    }
}

/// The usage view of a declaration the grammar only delimits.
pub open spec fn opaque_view(
    keyword: Seq<char>,
    name: Seq<char>,
    docs: Seq<Seq<char>>,
    modifiers: Seq<Seq<char>>,
    span: SourceSpan,
) -> UsageView {
    UsageView {
        keyword,
        name,
        is_implicit_name: false,
        ty: None,
        reference_target: None,
        allocation_source: None,
        allocation_target: None,
        additional_types: Seq::empty(),
        specializes: Seq::empty(),
        subsets: Seq::empty(),
        redefines: Seq::empty(),
        metadata_properties: Seq::empty(),
        multiplicity: None,
        body_members: Seq::empty(),
        docs,
        modifiers,
        span,
    }
}

impl Parser {
    /// Reads `import Path;` (or an import with a trailing body).
    fn parse_import(&mut self, docs: Vec<String>) -> (r: Result<ImportDecl, Diagnostic>)
        requires
            old(self).wf(),
        ensures
            Self::keeps(old(self), final(self)),
            ({
                let t = old(self).toks();
                let i = old(self).pos();
                match import_spec(t, i) {
                    Ok((path, endtok, pos)) => r matches Ok(imp) && imp@ == ImportView {
                        path,
                        docs: strings_view(docs@),
                        modifiers: Seq::empty(),
                        span: spec_merge_span(t[i].span, t[endtok].span),
                    } && final(self).pos() == pos,
                    Err(e) => r matches Err(d) && diag_is(d, e, t),
                }
            }),
            r is Ok ==> old(self).pos() < final(self).pos(),
    {
        let ghost t = self.tokens@;
        let ghost i = self.index as int;
        let start = self.expect(TokenKind::Import, "expected `import`")?;
        let path = self.parse_import_path()?;
        proof {
            self.lemma_wf_in_range();
        }
        let is_semi = match self.peek_kind() {
            TokenKind::Semicolon => true,
            _ => false,
        };
        let end = if is_semi {
            self.expect(TokenKind::Semicolon, "expected `;` after import")?
        } else {
            self.consume_declaration_tail()
        };
        let modifiers: Vec<String> = Vec::new();
        assert(strings_view(modifiers@) =~= Seq::<Seq<char>>::empty());
        Ok(ImportDecl { path, docs, modifiers, span: merge_span(&start.span, &end.span) })
    }

    /// Reads `alias Name for Target;` (or `alias Name = Target;`).
    fn parse_alias(&mut self, docs: Vec<String>) -> (r: Result<AliasDecl, Diagnostic>)
        requires
            old(self).wf(),
        ensures
            final(self).toks() == old(self).toks(),
            final(self).docs() == old(self).docs(),
            final(self).wf(),
            old(self).pos() <= final(self).pos(),
            ({
                let t = old(self).toks();
                let i = old(self).pos();
                match alias_spec(t, i) {
                    Ok((name, target, semi, pos)) => r matches Ok(a) && a@ == AliasView {
                        name,
                        target,
                        docs: strings_view(docs@),
                        modifiers: Seq::empty(),
                        span: spec_merge_span(t[i].span, t[semi].span),
                    } && final(self).pos() == pos,
                    Err(e) => r matches Err(d) && diag_is(d, e, t),
                }
            }),
            r is Ok ==> old(self).pos() < final(self).pos(),
    {
        let ghost t = self.tokens@;
        let ghost i = self.index as int;
        let start = self.expect_identifier_named("alias", "expected `alias`")?;
        let name = self.expect_identifier("expected alias name")?;
        if peek_is_ident(self, "for") {
            self.advance();
        } else {
            self.expect(TokenKind::Equals, "expected `=` after alias name")?;
        }
        let target = self.parse_qualified_name()?;
        let end = self.expect(TokenKind::Semicolon, "expected `;` after alias")?;
        let modifiers: Vec<String> = Vec::new();
        assert(strings_view(modifiers@) =~= Seq::<Seq<char>>::empty());
        Ok(AliasDecl { name, target, docs, modifiers, span: merge_span(&start.span, &end.span) })
    }

    /// Reads a declaration the grammar only delimits: a keyword, an
    /// optional name, and whatever follows up to its end.
    fn parse_opaque_declaration(&mut self, docs: Vec<String>, modifiers: Vec<String>) -> (r:
        Result<GenericUsageDecl, Diagnostic>)
        requires
            old(self).wf(),
        ensures
            Self::keeps(old(self), final(self)),
            ({
                let t = old(self).toks();
                let i = old(self).pos();
                let (kw, name, endtok, pos) = opaque_spec(t, i);
                r matches Ok(u) && u@ == opaque_view(
                    kw,
                    name,
                    strings_view(docs@),
                    strings_view(modifiers@),
                    spec_merge_span(t[i].span, t[endtok].span),
                ) && final(self).pos() == pos
            }),
            ({
                let k = old(self).toks()[old(self).pos()].kind;
                k is Identifier || k is Specializes || k is Redefines ==> old(self).pos()
                    < final(self).pos()
            }),
    {
        let ghost t = self.tokens@;
        let ghost i = self.index as int;
        proof {
            self.lemma_wf_in_range();
        }
        let start = self.current().duplicate();
        let kind = self.peek_kind().duplicate();
        let keyword = match kind {
            TokenKind::Identifier(value) => {
                self.advance();
                value
            },
            TokenKind::Specializes => {
                self.advance();
                owned("specialization")
            },
            TokenKind::Redefines => {
                self.advance();
                owned("redefinition")
            },
            _ => owned("declaration"),
        };
        self.skip_angle_metadata();
        proof {
            self.lemma_wf_in_range();
        }
        let name_kind = self.peek_kind().duplicate();
        let name = match name_kind {
            TokenKind::Identifier(value) => {
                self.advance();
                value
            },
            _ => keyword.clone(),
        };
        let end = self.consume_declaration_tail();
        let u = GenericUsageDecl {
            keyword,
            name,
            is_implicit_name: false,
            ty: None,
            reference_target: None,
            allocation_source: None,
            allocation_target: None,
            additional_types: Vec::new(),
            specializes: Vec::new(),
            subsets: Vec::new(),
            redefines: Vec::new(),
            metadata_properties: StrMap::new(),
            multiplicity: None,
            body_members: Vec::new(),
            docs,
            modifiers,
            span: merge_span(&start.span, &end.span),
        };
        assert(names_view(u.additional_types@) =~= Seq::<QualifiedNameView>::empty());
        assert(names_view(u.specializes@) =~= Seq::<QualifiedNameView>::empty());
        assert(names_view(u.subsets@) =~= Seq::<QualifiedNameView>::empty());
        assert(names_view(u.redefines@) =~= Seq::<QualifiedNameView>::empty());
        assert(decls_view(u.body_members@) =~= Seq::<DeclarationView>::empty());
        Ok(u)
    }
}

/// The head of a feature declaration: its name, typing and relations.
struct FeatureHead {
    name: String,
    ty: Option<QualifiedName>,
    additional_types: Vec<QualifiedName>,
    relations: FeatureRelations,
}

spec fn head_view(h: FeatureHead) -> FeatureHeadView {
    FeatureHeadView {
        name: h.name@,
        ty: opt_name_view(h.ty),
        additional_types: names_view(h.additional_types@),
        relations: relations_view(h.relations),
    }
}

/// `feature_<line>_<col>` for a feature declared without a name.
fn implicit_name(start: &SourceSpan) -> (s: String)
    ensures
        s@ == implicit_feature_name(*start),
{
    let mut s = owned("feature_");
    let line = usize_to_string(start.start_line);
    s.append(line.as_str());
    s.append("_");
    let col = usize_to_string(start.start_col);
    s.append(col.as_str());
    s
}

/// The imports among `members`, in order.
fn imports_of(members: &Vec<Declaration>) -> (r: Vec<ImportDecl>)
    ensures
        imports_view(r@) == import_members(decls_view(members@)),
{
    let mut r: Vec<ImportDecl> = Vec::new();
    let mut i: usize = 0;
    assert(imports_view(r@) =~= Seq::<ImportView>::empty());
    while i < members.len()
        invariant
            i <= members@.len(),
            imports_view(r@) == import_members(decls_view(members@.subrange(0, i as int))),
        decreases members@.len() - i,
    {
        let ghost pre = members@.subrange(0, i as int);
        let ghost next = members@.subrange(0, i + 1);
        assert(next.drop_last() == pre);
        assert(next.last() == members@[i as int]);
        assert(decls_view(next) == decls_view(pre).push(decl_view(members@[i as int])));
        assert(decls_view(next).drop_last() == decls_view(pre));
        assert(decls_view(next).last() == decl_view(members@[i as int]));
        match &members[i] {
            Declaration::Import(imp) => {
                let ghost before = imports_view(r@);
                r.push(imp.duplicate());
                assert(imports_view(r@) =~= before.push(imp@));
            },
            _ => {},
        }
        i = i + 1;
    }
    assert(members@.subrange(0, members@.len() as int) == members@);
    r
}

/// The facts a parsed package shows when its head reads `name` and ends at
/// `e2`.
pub open spec fn package_ok(
    t: Seq<Token>,
    h: int,
    docs: Seq<Seq<char>>,
    name: QualifiedNameView,
    e2: int,
    p: PackageView,
    final_pos: int,
) -> bool {
    &&& p.name == name
    &&& p.docs == docs
    &&& p.modifiers.len() == 0
    &&& p.definitions.len() == 0
    &&& p.imports == import_members(p.members)
    &&& p.span.start_line == t[h].span.start_line
    &&& p.span.start_col == t[h].span.start_col
    &&& body_class(t, e2) == 0 ==> p.members.len() == 0 && final_pos == e2 + 1 && p.span
        == spec_merge_span(t[h].span, t[e2].span)
}

/// What parsing a package at `h` gives, in terms of its head.
pub open spec fn package_outcome(
    t: Seq<Token>,
    h: int,
    docs: Seq<Seq<char>>,
    r: Result<PackageView, Diagnostic>,
    final_pos: int,
) -> bool {
    match package_head(t, h) {
        Err(e) => r matches Err(d) && diag_is(d, e, t),
        Ok((name, e2)) => {
            &&& (r matches Ok(p) ==> package_ok(t, h, docs, name, e2, p, final_pos))
            &&& (body_class(t, e2) == 1 || body_class(t, e2) == 3 ==> (r matches Err(d) && diag_is(
                d,
                (e2, "expected `{` after package name"@),
                t,
            )))
        },
    }
}

/// The facts a parsed definition shows when its head reads `kw`, `name`,
/// `specs` and ends at `e`.
pub open spec fn definition_ok(
    t: Seq<Token>,
    h: int,
    docs: Seq<Seq<char>>,
    kw: Seq<char>,
    name: Seq<char>,
    specs: Seq<QualifiedNameView>,
    e: int,
    g: DefinitionView,
    final_pos: int,
) -> bool {
    &&& g.keyword == kw
    &&& g.name == name
    &&& g.specializes == specs
    &&& g.docs == docs
    &&& g.modifiers.len() == 0
    &&& g.span.start_line == t[h].span.start_line
    &&& g.span.start_col == t[h].span.start_col
    &&& body_class(t, e) == 0 ==> g.members.len() == 0 && final_pos == e + 1 && g.span
        == spec_merge_span(t[h].span, t[e].span)
    &&& body_class(t, e) == 1 ==> g.members.len() == 0 && final_pos == e && g.span
        == spec_merge_span(t[h].span, t[e].span)
}

/// What parsing a classifier at `h` gives, in terms of its head.
pub open spec fn classifier_outcome(
    t: Seq<Token>,
    h: int,
    docs: Seq<Seq<char>>,
    r: Result<DefinitionView, Diagnostic>,
    final_pos: int,
) -> bool {
    match classifier_head(t, h) {
        Err(e) => r matches Err(d) && diag_is(d, e, t),
        Ok((kw, name, specs, e)) => {
            &&& (r matches Ok(g) ==> definition_ok(t, h, docs, kw, name, specs, e, g, final_pos))
            &&& (body_class(t, e) == 3 ==> (r matches Err(d) && diag_is(
                d,
                (e, "expected `;` or `{` after classifier declaration"@),
                t,
            )))
        },
    }
}

/// What parsing a feature definition at `h` gives, in terms of its head.
pub open spec fn feature_def_outcome(
    t: Seq<Token>,
    h: int,
    docs: Seq<Seq<char>>,
    r: Result<DefinitionView, Diagnostic>,
    final_pos: int,
) -> bool {
    match feature_def_head(t, h) {
        Err(e) => r matches Err(d) && diag_is(d, e, t),
        Ok((name, specs, e)) => {
            &&& (r matches Ok(g) ==> definition_ok(
                t,
                h,
                docs,
                "feature"@,
                name,
                specs,
                e,
                g,
                final_pos,
            ))
            &&& (body_class(t, e) == 3 ==> (r matches Err(d) && diag_is(
                d,
                (e, "expected `;` or `{` after feature definition"@),
                t,
            )))
        },
    }
}

/// The facts a parsed feature shows when its head reads `fh` and its end
/// token should stand at `e`.
pub open spec fn feature_ok(
    t: Seq<Token>,
    h: int,
    docs: Seq<Seq<char>>,
    modifiers: Seq<Seq<char>>,
    fh: FeatureHeadView,
    e: int,
    u: UsageView,
    final_pos: int,
) -> bool {
    &&& u.keyword == "feature"@
    &&& u.name == fh.name
    &&& !u.is_implicit_name
    &&& u.ty == fh.ty
    &&& u.reference_target is None
    &&& u.allocation_source is None
    &&& u.allocation_target is None
    &&& u.additional_types == fh.additional_types
    &&& u.specializes == fh.relations.specializes
    &&& u.subsets == fh.relations.subsets
    &&& u.redefines == fh.relations.redefines
    &&& u.docs == docs
    &&& u.modifiers == modifiers
    &&& u.span.start_line == t[h].span.start_line
    &&& u.span.start_col == t[h].span.start_col
    &&& body_class(t, e) == 0 ==> u.body_members.len() == 0 && final_pos == e + 1 && u.span
        == spec_merge_span(t[h].span, t[e].span)
    &&& body_class(t, e) == 1 ==> u.body_members.len() == 0 && final_pos == e && u.span
        == spec_merge_span(t[h].span, t[e].span)
}

/// What parsing a feature whose head spec is `head` gives.
pub open spec fn feature_outcome(
    t: Seq<Token>,
    h: int,
    head: Result<(FeatureHeadView, int), SpecError>,
    docs: Seq<Seq<char>>,
    modifiers: Seq<Seq<char>>,
    r: Result<UsageView, Diagnostic>,
    final_pos: int,
) -> bool {
    match head {
        Err(e) => r matches Err(d) && diag_is(d, e, t),
        Ok((fh, e)) => {
            &&& (r matches Ok(u) ==> feature_ok(t, h, docs, modifiers, fh, e, u, final_pos))
            &&& (body_class(t, e) == 3 ==> (r matches Err(d) && diag_is(
                d,
                (e, "expected `;` or `{` after feature declaration"@),
                t,
            )))
        },
    }
}

/// A result's view, the error kept as it is.
pub open spec fn map_view<A: View>(r: Result<A, Diagnostic>) -> Result<A::V, Diagnostic> {
    match r {
        Ok(a) => Ok(a@),
        Err(d) => Err(d),
    }
}

impl Parser {
    /// The body or terminator of a definition or feature at the cursor: a
    /// `;`, a `}` left for the enclosing body, or a `{ ... }` body.
    fn parse_body_or_end(&mut self, close_message: &str, missing_message: &str) -> (r: Result<
        (Vec<Declaration>, Token),
        Diagnostic,
    >)
        requires
            old(self).wf(),
            old(self).docs() == Seq::<Seq<char>>::empty(),
        ensures
            final(self).toks() == old(self).toks(),
            final(self).wf(),
            final(self).docs() == Seq::<Seq<char>>::empty(),
            old(self).pos() <= final(self).pos(),
            ({
                let t = old(self).toks();
                let e = old(self).pos();
                &&& (body_class(t, e) == 0 ==> (r matches Ok((ms, end)) && ms@.len() == 0 && end
                    == t[e] && final(self).pos() == e + 1))
                &&& (body_class(t, e) == 1 ==> (r matches Ok((ms, end)) && ms@.len() == 0 && end
                    == t[e] && final(self).pos() == e))
                &&& (body_class(t, e) == 3 ==> (r matches Err(d) && diag_is(
                    d,
                    (e, missing_message@),
                    t,
                )))
            }),
        decreases old(self).toks().len() - old(self).pos(), 0int,
    {
        proof {
            self.lemma_wf_in_range();
        }
        let class: u8 = match self.peek_kind() {
            TokenKind::Semicolon => 0,
            TokenKind::RBrace => 1,
            TokenKind::LBrace => 2,
            _ => 3,
        };
        if class == 0 {
            let end = self.expect(TokenKind::Semicolon, "expected `;`")?;
            Ok((Vec::new(), end))
        } else if class == 1 {
            let end = self.current().duplicate();
            Ok((Vec::new(), end))
        } else if class == 2 {
            self.advance();
            let members = self.parse_members()?;
            let end = self.expect(TokenKind::RBrace, close_message)?;
            Ok((members, end))
        } else {
            Err(self.error_here(missing_message))
        }
    }

    /// The declarations of a body, up to its closing `}` or the end of
    /// input.
    fn parse_members(&mut self) -> (r: Result<Vec<Declaration>, Diagnostic>)
        requires
            old(self).wf(),
            old(self).docs() == Seq::<Seq<char>>::empty(),
        ensures
            final(self).toks() == old(self).toks(),
            final(self).wf(),
            final(self).docs() == Seq::<Seq<char>>::empty(),
            old(self).pos() <= final(self).pos(),
        decreases old(self).toks().len() - old(self).pos(), 2int,
    {
        let ghost t = self.tokens@;
        let ghost i0 = self.index as int;
        let mut members: Vec<Declaration> = Vec::new();
        loop
            invariant
                self.toks() == t,
                self.wf(),
                self.docs() == Seq::<Seq<char>>::empty(),
                i0 <= self.pos(),
                i0 == old(self).pos(),
                t == old(self).toks(),
            decreases t.len() - self.pos(),
        {
            proof {
                self.lemma_wf_in_range();
            }
            let stop = match self.peek_kind() {
                TokenKind::RBrace | TokenKind::Eof => true,
                _ => false,
            };
            if stop {
                break ;
            }
            match self.parse_declaration()? {
                None => {
                    break ;
                },
                Some(declaration) => {
                    members.push(declaration);
                },
            }
        }
        Ok(members)
    }

    /// Reads `feature`-less or `feature` typing, relations and value or
    /// trailing clauses after a feature's name.
    fn parse_feature_rest(&mut self, name: String) -> (r: Result<FeatureHead, Diagnostic>)
        requires
            old(self).wf(),
        ensures
            Self::keeps(old(self), final(self)),
            match feature_rest_spec(old(self).toks(), name@, old(self).pos()) {
                Ok((fh, e)) => r matches Ok(h) && head_view(h) == fh && final(self).pos() == e,
                Err(e) => r matches Err(d) && diag_is(d, e, old(self).toks()),
            },
    {
        let (ty, additional_types) = self.parse_feature_typing()?;
        let relations = self.parse_optional_feature_relations()?;
        proof {
            self.lemma_wf_in_range();
        }
        let is_equals = match self.peek_kind() {
            TokenKind::Equals => true,
            _ => false,
        };
        if is_equals {
            self.skip_expression_tail();
        } else {
            self.skip_feature_tail();
        }
        Ok(FeatureHead { name, ty, additional_types, relations })
    }

    /// Reads an optional `: Type [..], Type [..]` typing.
    #[verifier::loop_isolation(false)]
    fn parse_feature_typing(&mut self) -> (r: Result<
        (Option<QualifiedName>, Vec<QualifiedName>),
        Diagnostic,
    >)
        requires
            old(self).wf(),
        ensures
            Self::keeps(old(self), final(self)),
            match typing_spec(old(self).toks(), old(self).pos()) {
                Ok((ty, more, e)) => r matches Ok((oty, v)) && opt_name_view(oty) == ty
                    && names_view(v@) == more && final(self).pos() == e,
                Err(e) => r matches Err(d) && diag_is(d, e, old(self).toks()),
            },
    {
        let ghost t = self.tokens@;
        let ghost i0 = self.index as int;
        let mut additional_types: Vec<QualifiedName> = Vec::new();
        assert(names_view(additional_types@) =~= Seq::<QualifiedNameView>::empty());
        proof {
            self.lemma_wf_in_range();
        }
        let is_colon = match self.peek_kind() {
            TokenKind::Colon => true,
            _ => false,
        };
        if !is_colon {
            return Ok((None, additional_types));
        }
        self.advance();
        let ty = self.parse_qualified_name()?;
        self.skip_multiplicity();
        let ghost p0 = self.pos();
        loop
            invariant
                self.toks() == t,
                self.docs() == old(self).docs(),
                self.wf(),
                i0 < self.pos(),
                i0 == old(self).pos(),
                qname_spec(t, i0 + 1) matches Ok((q, e)) && ty@ == q && p0 == mult_end(t, e),
                match additional_types_spec(t, self.pos()) {
                    Ok((qs2, e)) => additional_types_spec(t, p0) == Ok::<
                        (Seq<QualifiedNameView>, int),
                        SpecError,
                    >((names_view(additional_types@) + qs2, e)),
                    Err(x) => additional_types_spec(t, p0) == Err::<
                        (Seq<QualifiedNameView>, int),
                        SpecError,
                    >(x),
                },
            decreases t.len() - self.pos(),
        {
            proof {
                self.lemma_wf_in_range();
            }
            let is_comma = match self.peek_kind() {
                TokenKind::Comma => true,
                _ => false,
            };
            if !is_comma {
                assert(names_view(additional_types@) + Seq::<QualifiedNameView>::empty()
                    =~= names_view(additional_types@));
                break ;
            }
            let ghost j = self.pos();
            let ghost before = names_view(additional_types@);
            self.advance();
            let next = self.parse_qualified_name()?;
            additional_types.push(next);
            self.skip_multiplicity();
            proof {
                assert(names_view(additional_types@) =~= before.push(next@));
                match qname_spec(t, j + 1) {
                    Ok((q, e)) => {
                        match additional_types_spec(t, mult_end(t, e)) {
                            Ok((qs2, e2)) => {
                                assert(before.push(q) + qs2 =~= before + (seq![q] + qs2));
                            },
                            Err(x) => {},
                        }
                    },
                    Err(x) => {},
                }
            }
        }
        Ok((Some(ty), additional_types))
    }

    /// Reads a feature's name, or gives the implicit name when the name is
    /// left out.
    fn parse_feature_name(&mut self, start: &SourceSpan) -> (r: Result<String, Diagnostic>)
        requires
            old(self).wf(),
        ensures
            Self::keeps(old(self), final(self)),
            match feature_name_spec(old(self).toks(), old(self).pos(), *start) {
                Ok((name, n)) => r matches Ok(s) && s@ == name && final(self).pos() == n,
                Err(e) => r matches Err(d) && diag_is(d, e, old(self).toks()),
            },
    {
        proof {
            self.lemma_wf_in_range();
        }
        let implicit = match self.peek_kind() {
            TokenKind::Colon | TokenKind::Specializes | TokenKind::Redefines => true,
            _ => false,
        };
        if implicit {
            Ok(implicit_name(start))
        } else {
            self.expect_identifier("expected feature name")
        }
    }

    /// A name that is a relation keyword gives way to the identifier after
    /// it.
    fn rename_relation_keyword(&mut self, name: String) -> (r: String)
        requires
            old(self).wf(),
        ensures
            Self::keeps(old(self), final(self)),
            (r@, final(self).pos()) == rename_spec(old(self).toks(), name@, old(self).pos()),
    {
        proof {
            self.lemma_wf_in_range();
        }
        if is_relation_keyword_name(name.as_str()) {
            let kind = self.peek_kind().duplicate();
            match kind {
                TokenKind::Identifier(value) => {
                    self.advance();
                    value
                },
                _ => name,
            }
        } else {
            name
        }
    }

    /// Reads `package Name { ... }` or `package Name;`.
    fn parse_package(&mut self, docs: Vec<String>) -> (r: Result<PackageDecl, Diagnostic>)
        requires
            old(self).wf(),
            old(self).docs() == Seq::<Seq<char>>::empty(),
        ensures
            final(self).toks() == old(self).toks(),
            final(self).wf(),
            final(self).docs() == Seq::<Seq<char>>::empty(),
            old(self).pos() < final(self).pos() || r is Err,
            old(self).pos() <= final(self).pos(),
            package_outcome(
                old(self).toks(),
                old(self).pos(),
                strings_view(docs@),
                map_view(r),
                final(self).pos(),
            ),
        decreases old(self).toks().len() - old(self).pos(), 0int,
    {
        let ghost t = self.tokens@;
        let ghost h = self.index as int;
        let start = self.expect(TokenKind::Package, "expected `package`")?;
        let name = self.parse_qualified_name()?;
        let _specializes = self.parse_optional_specializations()?;
        proof {
            self.lemma_wf_in_range();
            lemma_qname_bounds(t, h + 1);
        }
        let ghost e2 = self.pos();
        let is_semi = match self.peek_kind() {
            TokenKind::Semicolon => true,
            _ => false,
        };
        let empty_modifiers: Vec<String> = Vec::new();
        assert(strings_view(empty_modifiers@) =~= Seq::<Seq<char>>::empty());
        if is_semi {
            let end = self.expect(TokenKind::Semicolon, "expected `;` after package")?;
            let p = PackageDecl {
                name,
                members: Vec::new(),
                imports: Vec::new(),
                definitions: Vec::new(),
                docs,
                modifiers: empty_modifiers,
                span: merge_span(&start.span, &end.span),
            };
            assert(decls_view(p.members@) =~= Seq::<DeclarationView>::empty());
            assert(imports_view(p.imports@) =~= Seq::<ImportView>::empty());
            assert(definitions_view(p.definitions@) =~= Seq::<DeclarationView>::empty());
            assert(import_members(Seq::<DeclarationView>::empty()) =~= Seq::<ImportView>::empty());
            return Ok(p);
        }
        self.expect(TokenKind::LBrace, "expected `{` after package name")?;
        let members = self.parse_members()?;
        let end = self.expect(TokenKind::RBrace, "expected `}` to close package")?;
        let imports = imports_of(&members);
        let p = PackageDecl {
            name,
            members,
            imports,
            definitions: Vec::new(),
            docs,
            modifiers: empty_modifiers,
            span: merge_span(&start.span, &end.span),
        };
        assert(definitions_view(p.definitions@) =~= Seq::<DeclarationView>::empty());
        Ok(p)
    }

    /// Reads a classifier-like definition.
    fn parse_classifier(&mut self, docs: Vec<String>) -> (r: Result<GenericDefinitionDecl, Diagnostic>)
        requires
            old(self).wf(),
            old(self).docs() == Seq::<Seq<char>>::empty(),
        ensures
            final(self).toks() == old(self).toks(),
            final(self).wf(),
            final(self).docs() == Seq::<Seq<char>>::empty(),
            old(self).pos() < final(self).pos() || r is Err,
            old(self).pos() <= final(self).pos(),
            classifier_outcome(
                old(self).toks(),
                old(self).pos(),
                strings_view(docs@),
                map_view(r),
                final(self).pos(),
            ),
        decreases old(self).toks().len() - old(self).pos(), 0int,
    {
        let ghost t = self.tokens@;
        let ghost h = self.index as int;
        let start = self.expect_identifier_token("expected classifier keyword")?;
        let keyword = owned(token_identifier(&start));
        proof {
            self.lemma_wf_in_range();
        }
        let second = match self.peek_kind() {
            TokenKind::Identifier(value) => is_definition_keyword(value.as_str()),
            _ => false,
        };
        if second {
            self.advance();
        }
        self.skip_angle_metadata();
        self.parse_modifiers();
        let name = self.expect_identifier("expected classifier name")?;
        self.skip_multiplicity();
        let specializes = self.parse_classifier_relations()?;
        let (members, end) = self.parse_body_or_end(
            "expected `}` to close classifier",
            "expected `;` or `{` after classifier declaration",
        )?;
        let empty_modifiers: Vec<String> = Vec::new();
        assert(strings_view(empty_modifiers@) =~= Seq::<Seq<char>>::empty());
        Ok(
            GenericDefinitionDecl {
                keyword,
                name,
                specializes,
                members,
                docs,
                modifiers: empty_modifiers,
                span: merge_span(&start.span, &end.span),
            },
        )
    }

    /// Reads `feature def Name ...`.
    fn parse_feature_definition(&mut self, docs: Vec<String>) -> (r: Result<
        GenericDefinitionDecl,
        Diagnostic,
    >)
        requires
            old(self).wf(),
            old(self).docs() == Seq::<Seq<char>>::empty(),
        ensures
            final(self).toks() == old(self).toks(),
            final(self).wf(),
            final(self).docs() == Seq::<Seq<char>>::empty(),
            old(self).pos() < final(self).pos() || r is Err,
            old(self).pos() <= final(self).pos(),
            feature_def_outcome(
                old(self).toks(),
                old(self).pos(),
                strings_view(docs@),
                map_view(r),
                final(self).pos(),
            ),
        decreases old(self).toks().len() - old(self).pos(), 0int,
    {
        let start = self.expect_identifier_named("feature", "expected `feature`")?;
        self.expect(TokenKind::Def, "expected `def` after `feature`")?;
        let name = self.expect_identifier("expected feature definition name")?;
        let specializes = self.parse_optional_specializations()?;
        let (members, end) = self.parse_body_or_end(
            "expected `}` to close feature definition",
            "expected `;` or `{` after feature definition",
        )?;
        let empty_modifiers: Vec<String> = Vec::new();
        assert(strings_view(empty_modifiers@) =~= Seq::<Seq<char>>::empty());
        Ok(
            GenericDefinitionDecl {
                keyword: owned("feature"),
                name,
                specializes,
                members,
                docs,
                modifiers: empty_modifiers,
                span: merge_span(&start.span, &end.span),
            },
        )
    }

    /// The usage built from a feature head, its body and its end token.
    fn feature_usage(
        head: FeatureHead,
        body_members: Vec<Declaration>,
        docs: Vec<String>,
        modifiers: Vec<String>,
        start: &SourceSpan,
        end: &SourceSpan,
    ) -> (u: GenericUsageDecl)
        ensures
            u@.keyword == "feature"@,
            u@.name == head_view(head).name,
            !u@.is_implicit_name,
            u@.ty == head_view(head).ty,
            u@.reference_target is None,
            u@.allocation_source is None,
            u@.allocation_target is None,
            u@.additional_types == head_view(head).additional_types,
            u@.specializes == head_view(head).relations.specializes,
            u@.subsets == head_view(head).relations.subsets,
            u@.redefines == head_view(head).relations.redefines,
            u@.body_members == decls_view(body_members@),
            u@.docs == strings_view(docs@),
            u@.modifiers == strings_view(modifiers@),
            u@.span == spec_merge_span(*start, *end),
    {
        GenericUsageDecl {
            keyword: owned("feature"),
            name: head.name,
            is_implicit_name: false,
            ty: head.ty,
            reference_target: None,
            allocation_source: None,
            allocation_target: None,
            additional_types: head.additional_types,
            specializes: head.relations.specializes,
            subsets: head.relations.subsets,
            redefines: head.relations.redefines,
            metadata_properties: StrMap::new(),
            multiplicity: None,
            body_members,
            docs,
            modifiers,
            span: merge_span(start, end),
        }
    }

    /// Reads `feature Name ...` after its modifiers.
    fn parse_feature_with_modifiers(&mut self, docs: Vec<String>, modifiers: Vec<String>) -> (r:
        Result<GenericUsageDecl, Diagnostic>)
        requires
            old(self).wf(),
            old(self).docs() == Seq::<Seq<char>>::empty(),
        ensures
            final(self).toks() == old(self).toks(),
            final(self).wf(),
            final(self).docs() == Seq::<Seq<char>>::empty(),
            old(self).pos() < final(self).pos() || r is Err,
            old(self).pos() <= final(self).pos(),
            feature_outcome(
                old(self).toks(),
                old(self).pos(),
                feature_head(old(self).toks(), old(self).pos()),
                strings_view(docs@),
                strings_view(modifiers@),
                map_view(r),
                final(self).pos(),
            ),
        decreases old(self).toks().len() - old(self).pos(), 0int,
    {
        let start = self.expect_identifier_named("feature", "expected `feature`")?;
        let name = self.parse_feature_name(&start.span)?;
        let name = self.rename_relation_keyword(name);
        self.skip_multiplicity();
        let head = self.parse_feature_rest(name)?;
        let (body_members, end) = self.parse_body_or_end(
            "expected `}` to close feature",
            "expected `;` or `{` after feature declaration",
        )?;
        Ok(Self::feature_usage(head, body_members, docs, modifiers, &start.span, &end.span))
    }

    /// Reads a feature declared without the `feature` keyword.
    fn parse_unprefixed_feature(&mut self, docs: Vec<String>, modifiers: Vec<String>) -> (r:
        Result<GenericUsageDecl, Diagnostic>)
        requires
            old(self).wf(),
            old(self).docs() == Seq::<Seq<char>>::empty(),
            old(self).toks()[old(self).pos()].kind is Identifier,
        ensures
            final(self).toks() == old(self).toks(),
            final(self).wf(),
            final(self).docs() == Seq::<Seq<char>>::empty(),
            old(self).pos() < final(self).pos() || r is Err,
            old(self).pos() <= final(self).pos(),
            feature_outcome(
                old(self).toks(),
                old(self).pos(),
                unprefixed_head(old(self).toks(), old(self).pos()),
                strings_view(docs@),
                strings_view(modifiers@),
                map_view(r),
                final(self).pos(),
            ),
        decreases old(self).toks().len() - old(self).pos(), 0int,
    {
        let ghost t = self.tokens@;
        let ghost h = self.index as int;
        proof {
            self.lemma_wf_in_range();
        }
        let start = self.current().duplicate();
        self.skip_multiplicity();
        self.skip_angle_metadata();
        assert(self.pos() == h);
        let name = self.parse_feature_name(&start.span)?;
        self.skip_multiplicity();
        let name = if peek_is_ident(self, "feature") {
            self.advance();
            self.parse_feature_name(&start.span)?
        } else {
            name
        };
        let name = self.rename_relation_keyword(name);
        let head = self.parse_feature_rest(name)?;
        let (body_members, end) = self.parse_body_or_end(
            "expected `}` to close feature",
            "expected `;` or `{` after feature declaration",
        )?;
        Ok(Self::feature_usage(head, body_members, docs, modifiers, &start.span, &end.span))
    }
}

/// The view of a declaration result.
pub open spec fn decl_result_view(r: Result<Option<Declaration>, Diagnostic>) -> Result<
    Option<DeclarationView>,
    Diagnostic,
> {
    match r {
        Ok(Some(d)) => Ok(Some(d@)),
        Ok(None) => Ok(None),
        Err(d) => Err(d),
    }
}

/// The message for a token that starts no declaration.
pub open spec fn invalid_declaration_message() -> Seq<char> {
    "expected a KerML declaration such as `package`, `import`, `classifier`, or `feature`"@
}

/// What parsing a declaration at `i` gives, with `docs0` pending: which
/// branch its head selects, and what that branch yields.
pub open spec fn declaration_outcome(
    t: Seq<Token>,
    i: int,
    docs0: Seq<Seq<char>>,
    r: Result<Option<DeclarationView>, Diagnostic>,
    final_pos: int,
) -> bool {
    let (p0, p1, p2, p3, h) = decl_positions(t, i);
    let docs = docs0 + docs_run(t, i);
    let mods = modifier_run(t, p1);
    let has_meta = meta_run(t, p0).0.len() > 0 || meta_run(t, p2).0.len() > 0;
    let c = decl_class(t, h, mods.len() > 0, has_meta);
    &&& (c == 9 ==> (r matches Ok(None)))
    &&& (c == 10 ==> (r matches Err(d) && diag_is(d, (h, invalid_declaration_message()), t)))
    &&& (c == 1 ==> (r matches Ok(o) ==> o matches Some(DeclarationView::Package(_)))
        && package_outcome(
        t,
        h,
        docs,
        match r {
            Ok(Some(DeclarationView::Package(p))) => Ok(p),
            Err(d) => Err(d),
            _ => arbitrary(),
        },
        final_pos,
    ))
    &&& (c == 2 ==> match import_spec(t, h) {
        Ok((path, endtok, pos)) => r matches Ok(Some(DeclarationView::Import(imp))) && imp
            == ImportView {
            path,
            docs,
            modifiers: Seq::empty(),
            span: spec_merge_span(t[h].span, t[endtok].span),
        } && final_pos == pos,
        Err(e) => r matches Err(d) && diag_is(d, e, t),
    })
    &&& (c == 3 ==> match alias_spec(t, h) {
        Ok((name, target, semi, pos)) => r matches Ok(Some(DeclarationView::Alias(a))) && a
            == AliasView {
            name,
            target,
            docs,
            modifiers: Seq::empty(),
            span: spec_merge_span(t[h].span, t[semi].span),
        } && final_pos == pos,
        Err(e) => r matches Err(d) && diag_is(d, e, t),
    })
    &&& (c == 4 ==> (r matches Ok(o) ==> o matches Some(DeclarationView::GenericDefinition(_)))
        && classifier_outcome(
        t,
        h,
        docs,
        match r {
            Ok(Some(DeclarationView::GenericDefinition(g))) => Ok(g),
            Err(d) => Err(d),
            _ => arbitrary(),
        },
        final_pos,
    ))
    &&& (c == 5 ==> (r matches Ok(o) ==> o matches Some(DeclarationView::GenericDefinition(_)))
        && feature_def_outcome(
        t,
        h,
        docs,
        match r {
            Ok(Some(DeclarationView::GenericDefinition(g))) => Ok(g),
            Err(d) => Err(d),
            _ => arbitrary(),
        },
        final_pos,
    ))
    &&& ((c == 6 || c == 8) ==> (r matches Ok(o) ==> o matches Some(
        DeclarationView::GenericUsage(_),
    )) && feature_outcome(
        t,
        h,
        if c == 6 {
            feature_head(t, h)
        } else {
            unprefixed_head(t, h)
        },
        docs,
        mods,
        match r {
            Ok(Some(DeclarationView::GenericUsage(u))) => Ok(u),
            Err(d) => Err(d),
            _ => arbitrary(),
        },
        final_pos,
    ))
    &&& (c == 7 ==> ({
        let (kw, name, endtok, pos) = opaque_spec(t, h);
        r matches Ok(Some(DeclarationView::GenericUsage(u))) && u == opaque_view(
            kw,
            name,
            docs,
            mods,
            spec_merge_span(t[h].span, t[endtok].span),
        ) && final_pos == pos
    }))
}

impl Parser {
    /// Whether an identifier `value` under the cursor starts a feature
    /// declared without the `feature` keyword.
    fn starts_unprefixed_feature(&self, value: &str) -> (r: bool)
        requires
            self.wf(),
        ensures
            r == (!spec_is_definition_keyword(value@) && !(value@ == "alias"@ || value@
                == "feature"@) && self.pos() + 1 < self.toks().len() && ({
                let k = self.toks()[self.pos() + 1].kind;
                k is Colon || k is Specializes || k is Redefines || k is Equals || k is Semicolon
                    || k is LBrace
            })),
    {
        if is_definition_keyword(value) || str_eq(value, "alias") || str_eq(value, "feature") {
            return false;
        }
        match self.next_kind() {
            Some(
                TokenKind::Colon
                | TokenKind::Specializes
                | TokenKind::Redefines
                | TokenKind::Equals
                | TokenKind::Semicolon
                | TokenKind::LBrace,
            ) => true,
            _ => false,
        }
    }

    /// Which branch a declaration whose head is under the cursor takes
    /// (see `decl_class`).
    fn declaration_class(&self, has_modifiers: bool, has_metadata: bool) -> (c: u8)
        requires
            self.wf(),
        ensures
            c as int == decl_class(self.toks(), self.pos(), has_modifiers, has_metadata),
    {
        proof {
            self.lemma_wf_in_range();
        }
        let next_is_def = match self.next_kind() {
            Some(TokenKind::Def) => true,
            _ => false,
        };
        match self.peek_kind() {
            TokenKind::Package => 1,
            TokenKind::Import => 2,
            TokenKind::Identifier(value) => {
                let v = value.as_str();
                if str_eq(v, "alias") {
                    3
                } else if is_definition_keyword(v) {
                    4
                } else if str_eq(v, "feature") && next_is_def {
                    5
                } else if str_eq(v, "feature") {
                    6
                } else if str_eq(v, "comment") || str_eq(v, "locale") || str_eq(v, "doc") {
                    7
                } else if has_modifiers || self.starts_unprefixed_feature(v) {
                    8
                } else {
                    7
                }
            },
            TokenKind::Eof => 9,
            TokenKind::Specializes | TokenKind::Redefines => 7,
            TokenKind::LBrace | TokenKind::Semicolon => {
                if has_metadata {
                    7
                } else {
                    10
                }
            },
            TokenKind::RBrace => 9,
            _ => 10,
        }
    }

    /// Reads one declaration, with its documentation comments, metadata
    /// prefixes and modifiers; gives `None` at the end of a body or of the
    /// input.
    fn parse_declaration(&mut self) -> (r: Result<Option<Declaration>, Diagnostic>)
        requires
            old(self).wf(),
        ensures
            final(self).toks() == old(self).toks(),
            final(self).wf(),
            final(self).docs() == Seq::<Seq<char>>::empty(),
            old(self).pos() <= final(self).pos(),
            r matches Ok(Some(_)) ==> old(self).pos() < final(self).pos(),
            declaration_outcome(
                old(self).toks(),
                old(self).pos(),
                old(self).docs(),
                decl_result_view(r),
                final(self).pos(),
            ),
        decreases old(self).toks().len() - old(self).pos(), 1int,
    {
        let ghost t = self.tokens@;
        let ghost i = self.index as int;
        self.collect_docs();
        let mut docs: Vec<String> = Vec::new();
        std::mem::swap(&mut docs, &mut self.pending_docs);
        assert(strings_view(self.pending_docs@) =~= Seq::<Seq<char>>::empty());
        let metadata_prefixes = self.parse_metadata_prefixes();
        let modifiers = self.parse_modifiers();
        let metadata_prefixes_after_modifiers = self.parse_metadata_prefixes();
        self.skip_multiplicity();
        let class = self.declaration_class(
            modifiers.len() > 0,
            metadata_prefixes.len() > 0 || metadata_prefixes_after_modifiers.len() > 0,
        );
        if class == 1 {
            Ok(Some(Declaration::Package(self.parse_package(docs)?)))
        } else if class == 2 {
            Ok(Some(Declaration::Import(self.parse_import(docs)?)))
        } else if class == 3 {
            Ok(Some(Declaration::Alias(self.parse_alias(docs)?)))
        } else if class == 4 {
            Ok(Some(Declaration::GenericDefinition(self.parse_classifier(docs)?)))
        } else if class == 5 {
            Ok(Some(Declaration::GenericDefinition(self.parse_feature_definition(docs)?)))
        } else if class == 6 {
            Ok(Some(Declaration::GenericUsage(self.parse_feature_with_modifiers(docs, modifiers)?)))
        } else if class == 7 {
            Ok(Some(Declaration::GenericUsage(self.parse_opaque_declaration(docs, modifiers)?)))
        } else if class == 8 {
            Ok(Some(Declaration::GenericUsage(self.parse_unprefixed_feature(docs, modifiers)?)))
        } else if class == 9 {
            Ok(None)
        } else {
            Err(
                self.error_here(
                    "expected a KerML declaration such as `package`, `import`, `classifier`, or `feature`",
                ),
            )
        }
    }

    /// Reads the whole token sequence as a module: its declarations, its
    /// top-level imports and its first package.
    fn parse(self) -> (r: Result<ParsedModule, Diagnostic>)
        requires
            self.wf(),
            self.pos() == 0,
            self.docs() == Seq::<Seq<char>>::empty(),
        ensures
            module_outcome(self.toks(), module_result_view(r)),
            r matches Ok(m) ==> m@.imports == import_members(m@.members) && m@.package
                == first_package(m@.members),
    {
        let mut parser = self;
        let ghost t = parser.tokens@;
        let ghost mut ps: Seq<int> = seq![0];
        let mut package: Option<PackageDecl> = None;
        let mut imports: Vec<ImportDecl> = Vec::new();
        let mut members: Vec<Declaration> = Vec::new();
        assert(imports_view(imports@) =~= Seq::<ImportView>::empty());
        assert(decls_view(members@) =~= Seq::<DeclarationView>::empty());
        loop
            invariant
                parser.toks() == t,
                t == self.toks(),
                parser.wf(),
                parser.docs() == Seq::<Seq<char>>::empty(),
                read_in_turn(t, ps, decls_view(members@)),
                ps.last() == parser.pos(),
                imports_view(imports@) == import_members(decls_view(members@)),
                (match package {
                    Some(p) => Some(p@),
                    None => None,
                }) == first_package(decls_view(members@)),
            decreases t.len() - parser.pos(),
        {
            if parser.at_end() {
                let ghost ms = decls_view(members@);
                assert(read_in_turn(t, ps, ms) && module_ends(t, ps.last()));
                let m = ParsedModule { package, imports, members };
                assert(m@.members == ms);
                proof {
                    lemma_module_read(t, ps, ms);
                }
                return Ok(m);
            }
            let ghost q = parser.pos();
            parser.collect_docs();
            let ghost before = decls_view(members@);
            let ghost old_ms = members@;
            let parsed = parser.parse_declaration();
            let declaration = match parsed {
                Err(e) => {
                    assert(declaration_at(t, ps.last(), Err(e), parser.pos())) by {
                        reveal(declaration_at);
                    }
                    assert(read_in_turn(t, ps, before));
                    return Err(e);
                },
                Ok(None) => {
                    assert(declaration_at(t, ps.last(), Ok(None), parser.pos())) by {
                        reveal(declaration_at);
                    }
                    assert(read_in_turn(t, ps, before) && module_ends(t, ps.last()));
                    let m = ParsedModule { package, imports, members };
                    assert(m@.members == before);
                    proof {
                        lemma_module_read(t, ps, before);
                    }
                    return Ok(m);
                },
                Ok(Some(d)) => d,
            };
            let ghost dv = declaration@;
            assert(declaration_at(t, q, Ok(Some(dv)), parser.pos())) by {
                reveal(declaration_at);
            }
            match declaration {
                Declaration::Package(p) => {
                    if package.is_none() {
                        package = Some(p.duplicate());
                    }
                    members.push(Declaration::Package(p));
                },
                Declaration::Import(imp) => {
                    imports.push(imp.duplicate());
                    members.push(Declaration::Import(imp));
                    assert(imports_view(imports@) =~= import_members(before).push(imp@));
                },
                other => {
                    members.push(other);
                },
            }
            assert(members@.drop_last() == old_ms);
            assert(decls_view(members@) == before.push(decl_view(members@.last())));
            assert(decls_view(members@).drop_last() == before);
            proof {
                let ps2 = ps.push(parser.pos());
                let ms2 = decls_view(members@);
                assert(ms2[before.len() as int] == dv);
                assert forall|k: int| 0 <= k < ms2.len() implies #[trigger] step_read(t, ps2, ms2, k) by {
                    if k < before.len() {
                        assert(step_read(t, ps, before, k));
                        assert(ps2[k] == ps[k] && ps2[k + 1] == ps[k + 1] && ms2[k] == before[k]);
                    }
                }
                ps = ps2;
            }
        }
    }
}

/// The declaration at `q`, after the documentation comments there, reads
/// as `r` and leaves the cursor at `next`.
#[verifier::opaque]
pub open spec fn declaration_at(t: Seq<Token>, q: int, r: Result<Option<DeclarationView>, Diagnostic>, next: int) -> bool {
    !(t[q].kind is Eof) && declaration_outcome(t, q + docs_run(t, q).len(), docs_run(t, q), r, next)
}

/// The `k`-th declaration `ms[k]` is read at `ps[k]` and ends at
/// `ps[k + 1]`.
pub open spec fn step_read(t: Seq<Token>, ps: Seq<int>, ms: Seq<DeclarationView>, k: int) -> bool {
    declaration_at(t, ps[k], Ok(Some(ms[k])), ps[k + 1])
}

/// The declarations `ms` are read one after another from the start of `t`,
/// at the positions `ps`.
pub open spec fn read_in_turn(t: Seq<Token>, ps: Seq<int>, ms: Seq<DeclarationView>) -> bool {
    &&& ps.len() == ms.len() + 1
    &&& ps[0] == 0
    &&& forall|k: int| 0 <= k < ms.len() ==> #[trigger] step_read(t, ps, ms, k)
}

/// Reading stops at `q`: the end of input, or nothing more to read there.
pub open spec fn module_ends(t: Seq<Token>, q: int) -> bool {
    t[q].kind is Eof || exists|p: int| declaration_at(t, q, Ok(None), p)
}

/// Declarations read in turn up to where reading stops make a module.
proof fn lemma_module_read(t: Seq<Token>, ps: Seq<int>, ms: Seq<DeclarationView>)
    requires
        read_in_turn(t, ps, ms),
        module_ends(t, ps.last()),
    ensures
        module_outcome(t, Ok(ms)),
{
    assert(read_in_turn(t, ps, ms) && module_ends(t, ps.last()));
    assert(exists|ps2: Seq<int>| #[trigger] read_in_turn(t, ps2, ms) && module_ends(t, ps2.last()));
    let r = Ok::<Seq<DeclarationView>, Diagnostic>(ms);
    assert(r is Ok);
    assert(r->Ok_0 == ms);
    assert(module_outcome(t, r) == (exists|ps2: Seq<int>| read_in_turn(t, ps2, ms) && module_ends(t, ps2.last())));
}

/// A module's declarations, or the error that stops reading them.
pub open spec fn module_result_view(r: Result<ParsedModule, Diagnostic>) -> Result<Seq<DeclarationView>, Diagnostic> {
    match r {
        Ok(m) => Ok(m@.members),
        Err(d) => Err(d),
    }
}

/// What reading a module from tokens `t` gives: its declarations, read in
/// turn from the start up to where reading stops; or the error of the first
/// declaration that fails, after those read before it.
pub open spec fn module_outcome(t: Seq<Token>, r: Result<Seq<DeclarationView>, Diagnostic>) -> bool {
    match r {
        Ok(ms) => exists|ps: Seq<int>| read_in_turn(t, ps, ms) && module_ends(t, ps.last()),
        Err(d) => exists|ps: Seq<int>, ms: Seq<DeclarationView>|
            read_in_turn(t, ps, ms) && exists|p: int| declaration_at(t, ps.last(), Err(d), p),
    }
}

/// Parses a KerML token sequence, as the lexer produces it (ending with
/// the end-of-input token), into a module: its declarations are read in
/// turn, each as the grammar of declarations says, until the end of input;
/// the first declaration that does not parse fails the module.
pub fn parse_kerml_tokens(tokens: Vec<Token>) -> (r: Result<ParsedModule, Diagnostic>)
    requires
        has_eof_from(tokens@, 0),
    ensures
        module_outcome(tokens@, module_result_view(r)),
        r matches Ok(m) ==> m@.imports == import_members(m@.members) && m@.package
            == first_package(m@.members),
{
    Parser::new(tokens).parse()
}

/// The text of an identifier token.
fn token_identifier(token: &Token) -> (r: &str)
    requires
        token.kind is Identifier,
    ensures
        r@ == ident_text(token.kind),
{
    match &token.kind {
        TokenKind::Identifier(value) => value.as_str(),
        _ => "",
    }
}

/// The text of a name-segment token (`$` for a dollar token).
fn token_name(token: &Token) -> (r: &str)
    requires
        is_name_kind(token.kind),
    ensures
        r@ == name_text(token.kind),
{
    match &token.kind {
        TokenKind::Identifier(value) => value.as_str(),
        TokenKind::String(value) => value.as_str(),
        TokenKind::Dollar => "$",
        _ => "",
    }
}

/// The text of an import-path-segment token.
fn token_path_segment(token: &Token) -> (r: &str)
    requires
        is_path_kind(token.kind),
    ensures
        r@ == path_text(token.kind),
{
    match &token.kind {
        TokenKind::Identifier(value) => value.as_str(),
        TokenKind::Star => "*",
        TokenKind::DoubleStar => "**",
        _ => "",
    }
}

/// Whether `value` introduces a classifier-like definition.
pub fn is_definition_keyword(value: &str) -> (r: bool)
    ensures
        r == spec_is_definition_keyword(value@),
{
    str_eq(value, "classifier") || str_eq(value, "class") || str_eq(value, "struct") || str_eq(
        value,
        "datatype",
    ) || str_eq(value, "behavior") || str_eq(value, "function") || str_eq(value, "predicate")
        || str_eq(value, "interaction") || str_eq(value, "association") || str_eq(value, "assoc")
        || str_eq(value, "metaclass")
}

/// Whether `value` is a modifier keyword.
pub fn is_modifier(value: &str) -> (r: bool)
    ensures
        r == spec_is_modifier(value@),
{
    str_eq(value, "public") || str_eq(value, "private") || str_eq(value, "protected") || str_eq(
        value,
        "library",
    ) || str_eq(value, "abstract") || str_eq(value, "all") || str_eq(value, "composite")
        || str_eq(value, "portion") || str_eq(value, "const") || str_eq(value, "member") || str_eq(
        value,
        "readonly",
    ) || str_eq(value, "derived") || str_eq(value, "end") || str_eq(value, "in") || str_eq(
        value,
        "out",
    ) || str_eq(value, "inout") || str_eq(value, "ref") || str_eq(value, "nonunique") || str_eq(
        value,
        "ordered",
    )
}

/// Whether `value` is a relation keyword.
pub fn is_relation_keyword_name(value: &str) -> (r: bool)
    ensures
        r == spec_is_relation_keyword_name(value@),
{
    str_eq(value, "redefines") || str_eq(value, "subsets") || str_eq(value, "specializes")
        || str_eq(value, "typed") || str_eq(value, "featured")
}

} // verus!
