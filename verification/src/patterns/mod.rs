//! The matching contract and the matchers that rules are composed from.
use vstd::prelude::*;
use crate::patterns::word::{ExactWord, WordSet};
use crate::token::{Token, TokenKind};

pub mod composite;
pub mod pattern_map;
pub mod scan;
pub mod word;

verus! {

/// Something that can say how many leading tokens of a window it matches.
///
/// A pattern looks only at the front of the window: sliding the window
/// over a document is the caller's job. Zero means "no match".
pub trait Pattern {
    /// The number of leading tokens of `tokens` that match; 0 for none.
    spec fn match_len(&self, tokens: Seq<Token>, source: Seq<char>) -> nat;

    /// A match never reaches past the end of the window.
    proof fn lemma_match_fits(&self, tokens: Seq<Token>, source: Seq<char>)
        ensures
            self.match_len(tokens, source) <= tokens.len(),
    ;

    fn matches(&self, tokens: &[Token], source: &[char]) -> (len: usize)
        ensures
            len == self.match_len(tokens@, source@),
            len <= tokens@.len(),
    ;
}

/// Matches one whitespace token.
pub struct WhitespacePattern;

impl Pattern for WhitespacePattern {
    open spec fn match_len(&self, tokens: Seq<Token>, source: Seq<char>) -> nat {
        if tokens.len() > 0 && tokens[0].kind == TokenKind::Whitespace {
            1
        } else {
            0
        }
    }

    proof fn lemma_match_fits(&self, tokens: Seq<Token>, source: Seq<char>) {
    }

    fn matches(&self, tokens: &[Token], source: &[char]) -> (len: usize) {
        if tokens.len() > 0 && tokens[0].kind.is_whitespace() {
            1
        } else {
            0
        }
    }
}

/// Matches one token of a given kind.
pub struct KindPattern {
    pub kind: TokenKind,
}

impl KindPattern {
    pub fn new(kind: TokenKind) -> (pattern: KindPattern)
        ensures
            pattern.kind == kind,
    {
        KindPattern { kind }
    }

    /// The pattern for a single hyphen.
    pub fn hyphen() -> (pattern: KindPattern)
        ensures
            pattern.kind == TokenKind::Hyphen,
    {
        KindPattern { kind: TokenKind::Hyphen }
    }
}

impl Pattern for KindPattern {
    open spec fn match_len(&self, tokens: Seq<Token>, source: Seq<char>) -> nat {
        if tokens.len() > 0 && tokens[0].kind == self.kind {
            1
        } else {
            0
        }
    }

    proof fn lemma_match_fits(&self, tokens: Seq<Token>, source: Seq<char>) {
    }

    fn matches(&self, tokens: &[Token], source: &[char]) -> (len: usize) {
        if tokens.len() > 0 && tokens[0].kind == self.kind {
            1
        } else {
            0
        }
    }
}

/// Any of the matchers that look at a single token.
pub enum TokenPattern {
    /// One whitespace token.
    Whitespace,
    /// One token of the given kind.
    Kind(TokenKind),
    /// One word token with exactly the given text.
    Exact(ExactWord),
    /// One word token whose text is in the set, up to ASCII case.
    AnyOf(WordSet),
}

impl Pattern for TokenPattern {
    open spec fn match_len(&self, tokens: Seq<Token>, source: Seq<char>) -> nat {
        match self {
            TokenPattern::Whitespace => WhitespacePattern.match_len(tokens, source),
            TokenPattern::Kind(kind) => (KindPattern { kind: *kind }).match_len(tokens, source),
            TokenPattern::Exact(exact) => exact.match_len(tokens, source),
            TokenPattern::AnyOf(set) => set.match_len(tokens, source),
        }
    }

    proof fn lemma_match_fits(&self, tokens: Seq<Token>, source: Seq<char>) {
    }

    fn matches(&self, tokens: &[Token], source: &[char]) -> (len: usize) {
        match self {
            TokenPattern::Whitespace => WhitespacePattern.matches(tokens, source),
            TokenPattern::Kind(kind) => KindPattern::new(*kind).matches(tokens, source),
            TokenPattern::Exact(exact) => exact.matches(tokens, source),
            TokenPattern::AnyOf(set) => set.matches(tokens, source),
        }
    }
}

/// A single-token matcher never consumes more than one token.
pub proof fn lemma_token_pattern_is_unit(pattern: TokenPattern, tokens: Seq<Token>, source: Seq<char>)
    ensures
        pattern.match_len(tokens, source) <= 1,
{
}

} // verus!
