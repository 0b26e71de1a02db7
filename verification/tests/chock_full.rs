use harper_core::linting::chock_full::ChockFull;
use harper_core::linting::{Lint, PatternLinter, Suggestion};
use harper_core::patterns::scan::find_matches;
use harper_core::patterns::Pattern;
use harper_core::token::{tokens_span, Span, Token, TokenKind};

fn tokenize(source: &[char]) -> Vec<Token> {
    let mut tokens = Vec::new();
    let mut i = 0;
    while i < source.len() {
        let start = i;
        let c = source[i];
        let kind = if c.is_alphanumeric() {
            while i < source.len()
                && (source[i].is_alphanumeric()
                    || (source[i] == '\''
                        && i + 1 < source.len()
                        && source[i + 1].is_alphanumeric()))
            {
                i += 1;
            }
            TokenKind::Word
        } else if c == '\n' {
            i += 1;
            TokenKind::Newline
        } else if c.is_whitespace() {
            while i < source.len() && source[i].is_whitespace() && source[i] != '\n' {
                i += 1;
            }
            TokenKind::Whitespace
        } else if c == '-' {
            i += 1;
            TokenKind::Hyphen
        } else {
            i += 1;
            TokenKind::Punctuation
        };
        tokens.push(Token::new(Span::new(start, i), kind));
    }
    tokens
}

fn lint_text(source: &[char], linter: &ChockFull) -> Vec<Lint> {
    let tokens = tokenize(source);
    let mut lints = Vec::new();
    for (start, len) in find_matches(linter.pattern(), &tokens, source) {
        let matched = &tokens[start..start + len];
        let span = tokens_span(matched).expect("a match holds a token");
        assert!(matched.len() >= 2);
        assert!(span.start <= span.end && span.end <= source.len());
        lints.push(linter.match_to_lint(matched, source));
    }
    lints
}

fn apply(suggestion: &Suggestion, span: Span, source: &mut Vec<char>) {
    let replacement: Vec<char> = match suggestion {
        Suggestion::ReplaceWith(text) => text.clone(),
        Suggestion::Remove => Vec::new(),
    };
    source.splice(span.start..span.end, replacement);
}

fn assert_lint_count(text: &str, linter: ChockFull, count: usize) {
    let source: Vec<char> = text.chars().collect();
    let lints = lint_text(&source, &linter);
    assert_eq!(lints.len(), count);
}

fn assert_suggestion_result(text: &str, linter: ChockFull, expected: &str) {
    let mut source: Vec<char> = text.chars().collect();
    let mut rounds = 0;
    loop {
        let lints = lint_text(&source, &linter);
        let Some(lint) = lints.first() else {
            break;
        };
        let Some(suggestion) = lint.suggestions.first() else {
            break;
        };
        apply(suggestion, lint.span, &mut source);
        rounds += 1;
        assert!(rounds < 100);
    }
    let result: String = source.iter().collect();
    assert_eq!(result, expected);
}

#[test]
fn allows_correct_form() {
    assert_lint_count(
        "'Chalk full', 'chalk-full', 'choke full', and 'choke-full' are nonstandard forms of 'chock-full'.",
        ChockFull::default(),
        4,
    );
}

#[test]
fn lower_space_chalk() {
    assert_suggestion_result(
        "The codebase is chalk full of errors that we need to address.",
        ChockFull::default(),
        "The codebase is chock-full of errors that we need to address.",
    );
}

#[test]
fn lower_space_choke() {
    assert_suggestion_result(
        "The project is choke full of questionable decisions that we need to revisit.",
        ChockFull::default(),
        "The project is chock-full of questionable decisions that we need to revisit.",
    );
}

#[test]
fn upper_space_chalk() {
    assert_suggestion_result(
        "Chalk full of deprecated methods; we should refactor.",
        ChockFull::default(),
        "Chock-full of deprecated methods; we should refactor.",
    );
}

#[test]
fn upper_space_choke() {
    assert_suggestion_result(
        "Choke full of unnecessary complexity; simplify it.",
        ChockFull::default(),
        "Chock-full of unnecessary complexity; simplify it.",
    );
}

#[test]
fn lower_hyphen_chalk() {
    assert_suggestion_result(
        "The code is chalk-full of bugs; we need to debug before release.",
        ChockFull::default(),
        "The code is chock-full of bugs; we need to debug before release.",
    );
}

#[test]
fn lower_hyphen_choke() {
    assert_suggestion_result(
        "The project is choke-full of warnings; we should address them.",
        ChockFull::default(),
        "The project is chock-full of warnings; we should address them.",
    );
}

#[test]
fn upper_hyphen_chalk() {
    assert_suggestion_result(
        "Chalk-full of features, but we only need a few.",
        ChockFull::default(),
        "Chock-full of features, but we only need a few.",
    );
}

#[test]
fn upper_hyphen_choke() {
    assert_suggestion_result(
        "Choke-full of pitfalls; let's consider alternatives.",
        ChockFull::default(),
        "Chock-full of pitfalls; let's consider alternatives.",
    );
}

#[test]
fn whitespace_separator_asks_for_hyphen() {
    let source: Vec<char> = "The codebase is chalk full of errors.".chars().collect();
    let lints = lint_text(&source, &ChockFull::default());
    assert_eq!(lints.len(), 1);
    let lint = &lints[0];
    assert_eq!(lint.span, Span::new(16, 26));
    assert_eq!(
        lint.suggestions,
        vec![Suggestion::ReplaceWith("chock-full".chars().collect())]
    );
    assert_eq!(
        lint.message,
        "The standard term is \"chock-full\", and it should be hyphenated."
    );
    assert!(lint.message.contains("should be hyphenated"));
    assert_eq!(lint.priority, 126);
    assert_eq!(lint.lint_kind, harper_core::linting::LintKind::WordChoice);
}

#[test]
fn hyphen_separator_omits_remark() {
    let source: Vec<char> = "The codebase is choke-full of errors.".chars().collect();
    let lints = lint_text(&source, &ChockFull::default());
    assert_eq!(lints.len(), 1);
    assert_eq!(lints[0].message, "The standard term is \"chock-full\".");
    assert!(!lints[0].message.contains("hyphenated"));
}

#[test]
fn correct_form_gives_no_lint() {
    let source: Vec<char> = "The codebase is chock-full of errors.".chars().collect();
    assert_eq!(lint_text(&source, &ChockFull::default()).len(), 0);
}

#[test]
fn first_word_matches_in_any_case() {
    let source: Vec<char> = "CHOKE full".chars().collect();
    let lints = lint_text(&source, &ChockFull::default());
    assert_eq!(lints.len(), 1);
    assert_eq!(
        lints[0].suggestions,
        vec![Suggestion::ReplaceWith("Chock-full".chars().collect())]
    );
}

#[test]
fn last_word_is_case_sensitive() {
    let source: Vec<char> = "chalk Full".chars().collect();
    assert_eq!(lint_text(&source, &ChockFull::default()).len(), 0);
    let source: Vec<char> = "CHALK FULL".chars().collect();
    assert_eq!(lint_text(&source, &ChockFull::default()).len(), 0);
}

#[test]
fn rule_pattern_consumes_three_tokens() {
    let source: Vec<char> = "Choke full of it".chars().collect();
    let tokens = tokenize(&source);
    let rule = ChockFull::default();
    assert_eq!(rule.pattern().matches(&tokens, &source), 3);
    assert_eq!(rule.pattern().matches(&tokens[1..], &source), 0);
    assert_eq!(rule.pattern().matches(&tokens[..2], &source), 0);
    assert_eq!(
        rule.description(),
        "Flags common soundalikes of \"chock-full\" and makes sure they're hyphenated."
    );
}
