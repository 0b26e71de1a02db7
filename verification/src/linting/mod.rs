//! Issues found in a text, and the rules that find them with a pattern.
use vstd::prelude::*;
use crate::patterns::Pattern;
use crate::text::{ascii_lower, ascii_upper, str_to_chars, to_ascii_lower, to_ascii_upper};
use crate::token::{Span, Token};

pub mod chock_full;

verus! {

/// The category of an issue.
#[derive(Clone, Copy, Debug, PartialEq, Eq, Structural)]
pub enum LintKind {
    Spelling,
    Capitalization,
    Style,
    Formatting,
    Repetition,
    Enhancement,
    Readability,
    WordChoice,
    Miscellaneous,
}

/// How a piece of text is cased.
#[derive(Clone, Copy, Debug, PartialEq, Eq, Structural)]
pub enum CasePattern {
    /// Starts with a capital and holds no small letter.
    AllCaps,
    /// Starts with a capital and holds a small letter.
    Capitalized,
    /// Anything else.
    Lowercase,
}

/// One of the letters `A` to `Z`.
pub open spec fn is_ascii_capital(c: char) -> bool {
    'A' <= c && c <= 'Z'
}

/// One of the letters `a` to `z`.
pub open spec fn is_ascii_small(c: char) -> bool {
    'a' <= c && c <= 'z'
}

/// The case pattern of a text.
pub open spec fn case_pattern_of(text: Seq<char>) -> CasePattern {
    if text.len() > 0 && is_ascii_capital(text[0]) {
        if forall|i: int| 0 <= i < text.len() ==> !is_ascii_small(#[trigger] text[i]) {
            CasePattern::AllCaps
        } else {
            CasePattern::Capitalized
        }
    } else {
        CasePattern::Lowercase
    }
}

/// The character at index `i` of a text that is put into a case pattern.
pub open spec fn recased_char(c: char, i: int, pattern: CasePattern) -> char {
    match pattern {
        CasePattern::AllCaps => ascii_upper(c),
        CasePattern::Capitalized => if i == 0 {
            ascii_upper(c)
        } else {
            ascii_lower(c)
        },
        CasePattern::Lowercase => ascii_lower(c),
    }
}

/// A text put into a case pattern.
pub open spec fn recased(value: Seq<char>, pattern: CasePattern) -> Seq<char> {
    Seq::new(value.len(), |i: int| recased_char(value[i], i, pattern))
}

/// Finds the case pattern of a text.
pub fn detect_case(text: &[char]) -> (pattern: CasePattern)
    ensures
        pattern == case_pattern_of(text@),
{
    if text.len() == 0 || !('A' <= text[0] && text[0] <= 'Z') {
        return CasePattern::Lowercase;
    }
    let mut i: usize = 0;
    while i < text.len()
        invariant
            i <= text@.len(),
            text@.len() > 0,
            is_ascii_capital(text@[0]),
            forall|j: int| 0 <= j < i ==> !is_ascii_small(#[trigger] text@[j]),
        decreases text@.len() - i,
    {
        if 'a' <= text[i] && text[i] <= 'z' {
            assert(is_ascii_small(text@[i as int]));
            return CasePattern::Capitalized;
        }
        i += 1;
    }
    CasePattern::AllCaps
}

/// Puts `value` into the case pattern of `template`.
pub fn match_case(value: &[char], template: &[char]) -> (out: Vec<char>)
    ensures
        out@ == recased(value@, case_pattern_of(template@)),
{
    let pattern = detect_case(template);
    let mut out: Vec<char> = Vec::new();
    let mut i: usize = 0;
    while i < value.len()
        invariant
            i <= value@.len(),
            out@.len() == i,
            forall|j: int| 0 <= j < i ==> #[trigger] out@[j] == recased_char(value@[j], j, pattern),
        decreases value@.len() - i,
    {
        let c = value[i];
        let cased = match pattern {
            CasePattern::AllCaps => to_ascii_upper(c),
            CasePattern::Capitalized => if i == 0 {
                to_ascii_upper(c)
            } else {
                to_ascii_lower(c)
            },
            CasePattern::Lowercase => to_ascii_lower(c),
        };
        out.push(cased);
        i += 1;
    }
    assert(out@ =~= recased(value@, pattern));
    out
}

/// A proposed fix for an issue.
#[derive(Clone, Debug, PartialEq, Eq)]
pub enum Suggestion {
    /// Put this text in place of the flagged text.
    ReplaceWith(Vec<char>),
    /// Take the flagged text out.
    Remove,
}

impl Suggestion {
    /// The replacement text; removal puts nothing in the place.
    pub open spec fn replacement(&self) -> Seq<char> {
        match self {
            Suggestion::ReplaceWith(text) => text@,
            Suggestion::Remove => Seq::empty(),
        }
    }

    /// A replacement by `value`, cased as `template` is.
    pub fn replace_with_match_case(value: &[char], template: &[char]) -> (suggestion: Suggestion)
        ensures
            suggestion is ReplaceWith,
            suggestion.replacement() == recased(value@, case_pattern_of(template@)),
    {
        Suggestion::ReplaceWith(match_case(value, template))
    }

    /// A replacement by `value`, cased as `template` is.
    pub fn replace_with_match_case_str(value: &str, template: &[char]) -> (suggestion: Suggestion)
        ensures
            suggestion is ReplaceWith,
            suggestion.replacement() == recased(value@, case_pattern_of(template@)),
    {
        let chars = str_to_chars(value);
        Suggestion::replace_with_match_case(chars.as_slice(), template)
    }
}

/// A located, categorised issue with its proposed fixes.
#[derive(Clone, Debug, PartialEq, Eq)]
pub struct Lint {
    pub span: Span,
    pub lint_kind: LintKind,
    pub suggestions: Vec<Suggestion>,
    pub message: String,
    /// Ranks this issue among those of other rules.
    pub priority: u8,
}

/// A rule that finds its issues with a pattern. Whoever runs the rule
/// slides `pattern()` over the tokens and hands each match to
/// `match_to_lint`.
pub trait PatternLinter {
    type Matcher: Pattern;

    /// The runs of tokens for which `match_to_lint` can describe an issue.
    spec fn describes(&self, matched: Seq<Token>, source: Seq<char>) -> bool;

    fn pattern(&self) -> &Self::Matcher;

    fn match_to_lint(&self, matched: &[Token], source: &[char]) -> (lint: Lint)
        requires
            self.describes(matched@, source@),
    ;

    fn description(&self) -> &'static str;
}

} // verus!
