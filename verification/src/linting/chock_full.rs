//! The rule for soundalikes of "chock-full".
use vstd::prelude::*;
use crate::linting::{case_pattern_of, recased, Lint, LintKind, PatternLinter, Suggestion};
use crate::patterns::composite::{
    first_match_from, rest_of, sequence_from, EitherPattern, SequencePattern,
};
use crate::patterns::word::{exact_word_len, leads_with_word, WordSet};
use crate::patterns::{Pattern, TokenPattern};
use crate::text::same_ignoring_case;
use crate::token::{covering_span, tokens_span, Token, TokenKind};

verus! {

/// The rank of this rule's issues among those of other rules.
pub const CHOCK_FULL_PRIORITY: u8 = 126;

/// The window starts with what the rule flags: the word "chalk" or
/// "choke" in any casing, then whitespace or a hyphen, then the word
/// "full".
pub open spec fn starts_with_soundalike(tokens: Seq<Token>, source: Seq<char>) -> bool {
    &&& tokens.len() >= 3
    &&& tokens[0].kind == TokenKind::Word
    &&& tokens[0].span.fits(source)
    &&& (same_ignoring_case(tokens[0].span.content(source), "chalk"@) || same_ignoring_case(
        tokens[0].span.content(source),
        "choke"@,
    ))
    &&& (tokens[1].kind == TokenKind::Whitespace || tokens[1].kind == TokenKind::Hyphen)
    &&& tokens[2].kind == TokenKind::Word
    &&& tokens[2].span.fits(source)
    &&& tokens[2].span.content(source) == "full"@
}

/// Flags common soundalikes of "chock-full" and sees to the hyphen.
pub struct ChockFull {
    pattern: SequencePattern<EitherPattern<TokenPattern>>,
}

impl ChockFull {
    /// The pattern is the one that the rule was made with.
    pub closed spec fn well_formed(&self) -> bool {
        let steps = self.pattern.steps@;
        &&& steps.len() == 3
        &&& steps[0].alternatives@.len() == 1
        &&& steps[0].alternatives@[0] is AnyOf
        &&& steps[0].alternatives@[0]->AnyOf_0.words@.len() == 2
        &&& steps[0].alternatives@[0]->AnyOf_0.words@[0]@ == "chalk"@
        &&& steps[0].alternatives@[0]->AnyOf_0.words@[1]@ == "choke"@
        &&& steps[1].alternatives@.len() == 2
        &&& steps[1].alternatives@[0] == TokenPattern::Whitespace
        &&& steps[1].alternatives@[1] == TokenPattern::Kind(TokenKind::Hyphen)
        &&& forall|tokens: Seq<Token>, source: Seq<char>| #[trigger]
            steps[2].match_len(tokens, source) == exact_word_len("full"@, tokens, source)
    }

    /// What the rule's pattern matches.
    pub closed spec fn matcher(&self) -> SequencePattern<EitherPattern<TokenPattern>> {
        self.pattern
    }

    pub fn new() -> (rule: ChockFull)
        ensures
            rule.well_formed(),
    {
        let words: [&str; 2] = ["chalk", "choke"];
        let mut first: Vec<TokenPattern> = Vec::new();
        first.push(TokenPattern::AnyOf(WordSet::all(&words)));
        let mut second: Vec<TokenPattern> = Vec::new();
        second.push(TokenPattern::Whitespace);
        second.push(TokenPattern::Kind(TokenKind::Hyphen));
        let pattern = SequencePattern::new().followed_by(EitherPattern::new(first)).followed_by(
            EitherPattern::new(second),
        ).then_exact_word("full");
        assert(pattern.steps@.subrange(0, 2)[0] == pattern.steps@[0]);
        assert(pattern.steps@.subrange(0, 2)[1] == pattern.steps@[1]);
        ChockFull { pattern }
    }
}

impl Default for ChockFull {
    fn default() -> (rule: ChockFull)
        ensures
            rule.well_formed(),
    {
        ChockFull::new()
    }
}

/// The rule's pattern matches three tokens where the window starts with a
/// soundalike, and nothing elsewhere.
pub proof fn lemma_pattern_flags_soundalikes(rule: ChockFull, tokens: Seq<Token>, source: Seq<char>)
    requires
        rule.well_formed(),
    ensures
        rule.matcher().match_len(tokens, source) == if starts_with_soundalike(tokens, source) {
            3nat
        } else {
            0nat
        },
{
    let steps = rule.pattern.steps@;
    reveal_with_fuel(sequence_from, 5);
    reveal_with_fuel(first_match_from, 4);
    let set = steps[0].alternatives@[0]->AnyOf_0;
    if leads_with_word(tokens, source) {
        let text = tokens[0].span.content(source);
        if set.lists(text) {
            let i = choose|i: int| 0 <= i < set.words@.len() && same_ignoring_case(text, (#[trigger] set.words@[i])@);
            assert(i == 0 || i == 1);
        }
        if same_ignoring_case(text, "chalk"@) {
            assert(same_ignoring_case(text, set.words@[0]@));
        }
        if same_ignoring_case(text, "choke"@) {
            assert(same_ignoring_case(text, set.words@[1]@));
        }
    }
    let n0 = steps[0].match_len(rest_of(tokens, 0), source);
    assert(rest_of(tokens, 0) =~= tokens);
    if n0 != 0 {
        assert(n0 == 1);
        let r1 = rest_of(tokens, 1);
        if tokens.len() >= 2 {
            assert(r1[0] == tokens[1]);
        }
        let n1 = steps[1].match_len(r1, source);
        if n1 != 0 {
            assert(n1 == 1);
            let r2 = rest_of(tokens, 2);
            if tokens.len() >= 3 {
                assert(r2[0] == tokens[2]);
            }
        }
    }
}

/// A match of the rule's pattern whose first token does not start behind
/// the end of its last can be handed to `match_to_lint`.
pub proof fn lemma_match_can_be_described(rule: ChockFull, tokens: Seq<Token>, source: Seq<char>)
    requires
        starts_with_soundalike(tokens, source),
        tokens[0].span.start <= tokens[2].span.end,
    ensures
        rule.describes(tokens.subrange(0, 3), source),
{
}

impl PatternLinter for ChockFull {
    type Matcher = SequencePattern<EitherPattern<TokenPattern>>;

    /// At least two tokens, the second being the separator, that cover a
    /// span inside the buffer.
    open spec fn describes(&self, matched: Seq<Token>, source: Seq<char>) -> bool {
        matched.len() >= 2 && covering_span(matched)->0.fits(source)
    }

    fn pattern(&self) -> (pattern: &Self::Matcher)
        ensures
            *pattern == self.matcher(),
    {
        &self.pattern
    }

    fn match_to_lint(&self, matched: &[Token], source: &[char]) -> (lint: Lint)
        ensures
            Some(lint.span) == covering_span(matched@),
            lint.lint_kind == LintKind::WordChoice,
            lint.suggestions@.len() == 1,
            lint.suggestions@[0] is ReplaceWith,
            lint.suggestions@[0].replacement() == recased(
                "chock-full"@,
                case_pattern_of(lint.span.content(source@)),
            ),
            lint.message@ == if matched@[1].kind == TokenKind::Whitespace {
                "The standard term is \"chock-full\", and it should be hyphenated."@
            } else {
                "The standard term is \"chock-full\"."@
            },
            lint.priority == CHOCK_FULL_PRIORITY,
    {
        let span = tokens_span(matched).unwrap();
        let mut suggestions: Vec<Suggestion> = Vec::new();
        suggestions.push(Suggestion::replace_with_match_case_str("chock-full", span.get_content(source)));
        let message = if matched[1].kind.is_whitespace() {
            "The standard term is \"chock-full\", and it should be hyphenated."
        } else {
            "The standard term is \"chock-full\"."
        };
        Lint {
            span,
            lint_kind: LintKind::WordChoice,
            suggestions,
            message: message.to_owned(),
            priority: CHOCK_FULL_PRIORITY,
        }
    }

    fn description(&self) -> (text: &'static str)
        ensures
            text@ == "Flags common soundalikes of \"chock-full\" and makes sure they're hyphenated."@,
    {
        "Flags common soundalikes of \"chock-full\" and makes sure they're hyphenated."
    }
}

} // verus!
