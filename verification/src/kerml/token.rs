//! Tokens of KerML source text, as the lexer hands them to the parser.
use vstd::prelude::*;

verus! {

/// A region of source text; lines and columns are 1-based.
#[derive(Debug, Clone, Copy, PartialEq, Eq, Structural)]
pub struct SourceSpan {
    pub start_line: usize,
    pub start_col: usize,
    pub end_line: usize,
    pub end_col: usize,
}

/// The kinds of token that the KerML grammar distinguishes.
///
/// Keywords the grammar reads by their text (`classifier`, `feature`,
/// `alias`, ...) arrive as identifiers; `Other` stands for any token the
/// grammar does not tell apart.
#[derive(Debug)]
pub enum TokenKind {
    Package,
    Import,
    Def,
    Specializes,
    Redefines,
    Identifier(String),
    String(String),
    Doc(String),
    LBrace,
    RBrace,
    LParen,
    RParen,
    LBracket,
    RBracket,
    LAngle,
    RAngle,
    Semicolon,
    Colon,
    Comma,
    Equals,
    ScopeSep,
    Dot,
    At,
    Hash,
    Dollar,
    Star,
    DoubleStar,
    Other,
    Eof,
}

/// A token and where it stands in the source.
#[derive(Debug)]
pub struct Token {
    pub kind: TokenKind,
    pub span: SourceSpan,
}

/// A message about the source, optionally tied to a span.
#[derive(Debug)]
pub struct Diagnostic {
    pub message: String,
    pub span: Option<SourceSpan>,
}

/// The variant of a token kind as a number, so that two kinds can be
/// compared by variant alone.
pub open spec fn kind_tag(k: TokenKind) -> u8 {
    match k {
        TokenKind::Package => 0,
        TokenKind::Import => 1,
        TokenKind::Def => 2,
        TokenKind::Specializes => 3,
        TokenKind::Redefines => 4,
        TokenKind::Identifier(_) => 5,
        TokenKind::String(_) => 6,
        TokenKind::Doc(_) => 7,
        TokenKind::LBrace => 8,
        TokenKind::RBrace => 9,
        TokenKind::LParen => 10,
        TokenKind::RParen => 11,
        TokenKind::LBracket => 12,
        TokenKind::RBracket => 13,
        TokenKind::LAngle => 14,
        TokenKind::RAngle => 15,
        TokenKind::Semicolon => 16,
        TokenKind::Colon => 17,
        TokenKind::Comma => 18,
        TokenKind::Equals => 19,
        TokenKind::ScopeSep => 20,
        TokenKind::Dot => 21,
        TokenKind::At => 22,
        TokenKind::Hash => 23,
        TokenKind::Dollar => 24,
        TokenKind::Star => 25,
        TokenKind::DoubleStar => 26,
        TokenKind::Other => 27,
        TokenKind::Eof => 28,
    }
}

/// The text an identifier token carries (empty for other kinds).
pub open spec fn ident_text(k: TokenKind) -> Seq<char> {
    match k {
        TokenKind::Identifier(v) => v@,
        _ => Seq::empty(),
    }
}

/// Whether the token kind is an identifier whose text is `text`.
pub open spec fn is_ident(k: TokenKind, text: Seq<char>) -> bool {
    k is Identifier && ident_text(k) == text
}

impl TokenKind {
    /// The variant number of this kind.
    pub fn tag(&self) -> (t: u8)
        ensures
            t == kind_tag(*self),
    {
        match self {
            TokenKind::Package => 0,
            TokenKind::Import => 1,
            TokenKind::Def => 2,
            TokenKind::Specializes => 3,
            TokenKind::Redefines => 4,
            TokenKind::Identifier(_) => 5,
            TokenKind::String(_) => 6,
            TokenKind::Doc(_) => 7,
            TokenKind::LBrace => 8,
            TokenKind::RBrace => 9,
            TokenKind::LParen => 10,
            TokenKind::RParen => 11,
            TokenKind::LBracket => 12,
            TokenKind::RBracket => 13,
            TokenKind::LAngle => 14,
            TokenKind::RAngle => 15,
            TokenKind::Semicolon => 16,
            TokenKind::Colon => 17,
            TokenKind::Comma => 18,
            TokenKind::Equals => 19,
            TokenKind::ScopeSep => 20,
            TokenKind::Dot => 21,
            TokenKind::At => 22,
            TokenKind::Hash => 23,
            TokenKind::Dollar => 24,
            TokenKind::Star => 25,
            TokenKind::DoubleStar => 26,
            TokenKind::Other => 27,
            TokenKind::Eof => 28,
        }
    }

    /// A copy of this kind.
    pub fn duplicate(&self) -> (r: TokenKind)
        ensures
            r == *self,
    {
        match self {
            TokenKind::Package => TokenKind::Package,
            TokenKind::Import => TokenKind::Import,
            TokenKind::Def => TokenKind::Def,
            TokenKind::Specializes => TokenKind::Specializes,
            TokenKind::Redefines => TokenKind::Redefines,
            TokenKind::Identifier(v) => TokenKind::Identifier(v.clone()),
            TokenKind::String(v) => TokenKind::String(v.clone()),
            TokenKind::Doc(v) => TokenKind::Doc(v.clone()),
            TokenKind::LBrace => TokenKind::LBrace,
            TokenKind::RBrace => TokenKind::RBrace,
            TokenKind::LParen => TokenKind::LParen,
            TokenKind::RParen => TokenKind::RParen,
            TokenKind::LBracket => TokenKind::LBracket,
            TokenKind::RBracket => TokenKind::RBracket,
            TokenKind::LAngle => TokenKind::LAngle,
            TokenKind::RAngle => TokenKind::RAngle,
            TokenKind::Semicolon => TokenKind::Semicolon,
            TokenKind::Colon => TokenKind::Colon,
            TokenKind::Comma => TokenKind::Comma,
            TokenKind::Equals => TokenKind::Equals,
            TokenKind::ScopeSep => TokenKind::ScopeSep,
            TokenKind::Dot => TokenKind::Dot,
            TokenKind::At => TokenKind::At,
            TokenKind::Hash => TokenKind::Hash,
            TokenKind::Dollar => TokenKind::Dollar,
            TokenKind::Star => TokenKind::Star,
            TokenKind::DoubleStar => TokenKind::DoubleStar,
            TokenKind::Other => TokenKind::Other,
            TokenKind::Eof => TokenKind::Eof,
        }
    }
}

impl Token {
    /// A copy of this token.
    pub fn duplicate(&self) -> (r: Token)
        ensures
            r == *self,
    {
        Token { kind: self.kind.duplicate(), span: self.span }
    }
}

impl Diagnostic {
    /// A diagnostic with `message`, tied to `span` where one is given.
    pub fn new(message: &str, span: Option<SourceSpan>) -> (d: Diagnostic)
        ensures
            d.message@ == message@,
            d.span == span,
    {
        Diagnostic { message: String::from_str(message), span }
    }
}

/// The span from the start of `left` to the end of `right`.
pub open spec fn spec_merge_span(left: SourceSpan, right: SourceSpan) -> SourceSpan {
    SourceSpan {
        start_line: left.start_line,
        start_col: left.start_col,
        end_line: right.end_line,
        end_col: right.end_col,
    }
}

/// The span from the start of `left` to the end of `right`.
pub fn merge_span(left: &SourceSpan, right: &SourceSpan) -> (s: SourceSpan)
    ensures
        s == spec_merge_span(*left, *right),
{
    SourceSpan {
        start_line: left.start_line,
        start_col: left.start_col,
        end_line: right.end_line,
        end_col: right.end_col,
    }
}

} // verus!
