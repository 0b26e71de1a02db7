//! Tokens and the spans that tie them to the character buffer.
use vstd::prelude::*;
use vstd::slice::slice_subrange;

verus! {

/// A half-open range `[start, end)` of indices into a character buffer.
#[derive(Clone, Copy, Debug, PartialEq, Eq, Structural)]
pub struct Span {
    pub start: usize,
    pub end: usize,
}

impl Span {
    pub fn new(start: usize, end: usize) -> (span: Span)
        ensures
            span.start == start,
            span.end == end,
    {
        Span { start, end }
    }

    /// The span lies inside a buffer of the given contents.
    pub open spec fn fits(&self, source: Seq<char>) -> bool {
        self.start <= self.end && self.end <= source.len()
    }

    /// The text that the span covers.
    pub open spec fn content(&self, source: Seq<char>) -> Seq<char> {
        source.subrange(self.start as int, self.end as int)
    }

    /// Number of characters covered; an inverted span covers none.
    pub fn len(&self) -> (n: usize)
        ensures
            n == if self.start <= self.end { self.end - self.start } else { 0 },
    {
        if self.start <= self.end {
            self.end - self.start
        } else {
            0
        }
    }

    /// Resolves the span against `source`, or reports that it does not fit.
    pub fn try_get_content<'a>(&self, source: &'a [char]) -> (text: Option<&'a [char]>)
        ensures
            text is Some <==> self.fits(source@),
            text is Some ==> text->0@ == self.content(source@),
    {
        if self.start <= self.end && self.end <= source.len() {
            Some(slice_subrange(source, self.start, self.end))
        } else {
            None
        }
    }

    /// Resolves a span that is known to fit.
    pub fn get_content<'a>(&self, source: &'a [char]) -> (text: &'a [char])
        requires
            self.fits(source@),
        ensures
            text@ == self.content(source@),
    {
        slice_subrange(source, self.start, self.end)
    }
}

/// What a token is.
#[derive(Clone, Copy, Debug, PartialEq, Eq, Structural)]
pub enum TokenKind {
    Word,
    Whitespace,
    Hyphen,
    Punctuation,
    Number,
    Newline,
    Unlintable,
}

impl TokenKind {
    pub fn is_word(&self) -> (b: bool)
        ensures
            b == (*self == TokenKind::Word),
    {
        match self {
            TokenKind::Word => true,
            _ => false,
        }
    }

    pub fn is_whitespace(&self) -> (b: bool)
        ensures
            b == (*self == TokenKind::Whitespace),
    {
        match self {
            TokenKind::Whitespace => true,
            _ => false,
        }
    }

    pub fn is_hyphen(&self) -> (b: bool)
        ensures
            b == (*self == TokenKind::Hyphen),
    {
        match self {
            TokenKind::Hyphen => true,
            _ => false,
        }
    }
}

/// A classified piece of text.
#[derive(Clone, Copy, Debug, PartialEq, Eq, Structural)]
pub struct Token {
    pub span: Span,
    pub kind: TokenKind,
}

impl Token {
    pub fn new(span: Span, kind: TokenKind) -> (token: Token)
        ensures
            token.span == span,
            token.kind == kind,
    {
        Token { span, kind }
    }
}

/// The span from the start of the first token to the end of the last.
pub open spec fn covering_span(tokens: Seq<Token>) -> Option<Span> {
    if tokens.len() == 0 {
        None
    } else {
        Some(Span { start: tokens[0].span.start, end: tokens[tokens.len() - 1].span.end })
    }
}

/// The span that a run of tokens covers; nothing for an empty run.
pub fn tokens_span(tokens: &[Token]) -> (span: Option<Span>)
    ensures
        span == covering_span(tokens@),
{
    if tokens.len() == 0 {
        None
    } else {
        Some(Span { start: tokens[0].span.start, end: tokens[tokens.len() - 1].span.end })
    }
}

} // verus!
