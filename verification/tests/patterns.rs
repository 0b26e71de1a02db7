use harper_core::linting::{detect_case, match_case, CasePattern};
use harper_core::patterns::composite::{EitherPattern, SequencePattern};
use harper_core::patterns::pattern_map::PatternMap;
use harper_core::patterns::scan::find_matches;
use harper_core::patterns::word::{ExactWord, WordSet};
use harper_core::patterns::{KindPattern, Pattern, TokenPattern, WhitespacePattern};
use harper_core::text::{
    chars_equal, chars_equal_ignoring_case, str_to_chars, to_ascii_lower, to_ascii_upper,
};
use harper_core::token::{tokens_span, Span, Token, TokenKind};

fn chars(text: &str) -> Vec<char> {
    text.chars().collect()
}

// "one two-three": word, whitespace, word, hyphen, word
fn sample() -> (Vec<char>, Vec<Token>) {
    let source = chars("one two-three");
    let tokens = vec![
        Token::new(Span::new(0, 3), TokenKind::Word),
        Token::new(Span::new(3, 4), TokenKind::Whitespace),
        Token::new(Span::new(4, 7), TokenKind::Word),
        Token::new(Span::new(7, 8), TokenKind::Hyphen),
        Token::new(Span::new(8, 13), TokenKind::Word),
    ];
    (source, tokens)
}

#[test]
fn span_resolves_inside_buffer_only() {
    let source = chars("hello");
    assert_eq!(Span::new(1, 3).try_get_content(&source), Some(&['e', 'l'][..]));
    assert_eq!(Span::new(0, 5).get_content(&source), &source[..]);
    assert_eq!(Span::new(2, 6).try_get_content(&source), None);
    assert_eq!(Span::new(3, 2).try_get_content(&source), None);
    assert_eq!(Span::new(2, 5).len(), 3);
    assert_eq!(Span::new(5, 2).len(), 0);
}

#[test]
fn tokens_span_covers_first_to_last() {
    let (_, tokens) = sample();
    assert_eq!(tokens_span(&tokens), Some(Span::new(0, 13)));
    assert_eq!(tokens_span(&tokens[2..4]), Some(Span::new(4, 8)));
    assert_eq!(tokens_span(&tokens[..0]), None);
}

#[test]
fn ascii_case_conversion() {
    assert_eq!(to_ascii_lower('Q'), 'q');
    assert_eq!(to_ascii_lower('q'), 'q');
    assert_eq!(to_ascii_lower('-'), '-');
    assert_eq!(to_ascii_upper('q'), 'Q');
    assert_eq!(to_ascii_upper('Z'), 'Z');
    assert_eq!(to_ascii_upper('1'), '1');
}

#[test]
fn text_comparison() {
    assert_eq!(str_to_chars("chalk"), chars("chalk"));
    assert!(chars_equal(&chars("full"), &chars("full")));
    assert!(!chars_equal(&chars("full"), &chars("Full")));
    assert!(!chars_equal(&chars("full"), &chars("ful")));
    assert!(chars_equal_ignoring_case(&chars("ChAlK"), &chars("chalk")));
    assert!(!chars_equal_ignoring_case(&chars("chalk"), &chars("choke")));
}

#[test]
fn single_token_patterns() {
    let (source, tokens) = sample();
    assert_eq!(WhitespacePattern.matches(&tokens, &source), 0);
    assert_eq!(WhitespacePattern.matches(&tokens[1..], &source), 1);
    assert_eq!(KindPattern::hyphen().matches(&tokens[3..], &source), 1);
    assert_eq!(KindPattern::hyphen().matches(&tokens[2..], &source), 0);
    assert_eq!(KindPattern::new(TokenKind::Word).matches(&tokens, &source), 1);
    assert_eq!(ExactWord::new("one").matches(&tokens, &source), 1);
    assert_eq!(ExactWord::new("One").matches(&tokens, &source), 0);
    assert_eq!(ExactWord::new("one").matches(&tokens[..0], &source), 0);
    let set = WordSet::all(&["TWO", "three"]);
    assert_eq!(set.matches(&tokens, &source), 0);
    assert_eq!(set.matches(&tokens[2..], &source), 1);
    assert_eq!(set.matches(&tokens[4..], &source), 1);
    assert!(set.contains(&chars("Three")));
    assert!(!set.contains(&chars("four")));
}

#[test]
fn word_patterns_reject_spans_outside_buffer() {
    let source = chars("one");
    let tokens = vec![Token::new(Span::new(0, 9), TokenKind::Word)];
    assert_eq!(ExactWord::new("one").matches(&tokens, &source), 0);
    assert_eq!(WordSet::all(&["one"]).matches(&tokens, &source), 0);
}

#[test]
fn match_length_never_exceeds_window() {
    let (source, tokens) = sample();
    let sequence = SequencePattern::new()
        .followed_by(TokenPattern::Kind(TokenKind::Word))
        .followed_by(TokenPattern::Whitespace)
        .followed_by(TokenPattern::Kind(TokenKind::Word));
    for start in 0..=tokens.len() {
        for end in start..=tokens.len() {
            let window = &tokens[start..end];
            assert!(sequence.matches(window, &source) <= window.len());
        }
    }
}

#[test]
fn sequence_of_unit_steps_returns_step_count() {
    let (source, tokens) = sample();
    let sequence = SequencePattern::new()
        .followed_by(TokenPattern::Exact(ExactWord::new("one")))
        .followed_by(TokenPattern::Whitespace)
        .followed_by(TokenPattern::AnyOf(WordSet::all(&["two"])))
        .followed_by(TokenPattern::Kind(TokenKind::Hyphen));
    assert_eq!(sequence.matches(&tokens, &source), 4);
    assert_eq!(sequence.matches(&tokens[..3], &source), 0);
    assert_eq!(sequence.matches(&tokens[1..], &source), 0);
}

#[test]
fn sequence_fails_at_first_failing_step() {
    let (source, tokens) = sample();
    let sequence = SequencePattern::new()
        .followed_by(TokenPattern::Kind(TokenKind::Word))
        .followed_by(TokenPattern::Kind(TokenKind::Hyphen));
    assert_eq!(sequence.matches(&tokens, &source), 0);
    assert_eq!(sequence.matches(&tokens[2..], &source), 2);
}

#[test]
fn empty_sequence_matches_nothing() {
    let (source, tokens) = sample();
    let sequence: SequencePattern<TokenPattern> = SequencePattern::new();
    assert_eq!(sequence.matches(&tokens, &source), 0);
    let sequence: SequencePattern<TokenPattern> = SequencePattern::default();
    assert_eq!(sequence.matches(&tokens, &source), 0);
}

#[test]
fn either_prefers_first_matching_alternative() {
    let (source, tokens) = sample();
    let long = SequencePattern::new()
        .followed_by(TokenPattern::Kind(TokenKind::Word))
        .followed_by(TokenPattern::Whitespace);
    let short = SequencePattern::new().followed_by(TokenPattern::Kind(TokenKind::Word));
    assert_eq!(EitherPattern::new(vec![long, short]).matches(&tokens, &source), 2);
    let long = SequencePattern::new()
        .followed_by(TokenPattern::Kind(TokenKind::Word))
        .followed_by(TokenPattern::Whitespace);
    let short = SequencePattern::new().followed_by(TokenPattern::Kind(TokenKind::Word));
    let either = EitherPattern::new(vec![short, long]);
    assert_eq!(either.matches(&tokens, &source), 1);
    assert_eq!(either.matches(&tokens[1..], &source), 0);
    let none: EitherPattern<TokenPattern> = EitherPattern::new(Vec::new());
    assert_eq!(none.matches(&tokens, &source), 0);
}

#[test]
fn then_exact_word_appends_case_sensitive_step() {
    let (source, tokens) = sample();
    let sequence = SequencePattern::new()
        .then_exact_word("one")
        .followed_by(EitherPattern::new(vec![
            TokenPattern::Kind(TokenKind::Hyphen),
            TokenPattern::Whitespace,
        ]))
        .then_exact_word("two");
    assert_eq!(sequence.matches(&tokens, &source), 3);
    let other = SequencePattern::new().then_exact_word("ONE");
    assert_eq!(other.matches(&tokens, &source), 0);
}

#[test]
fn empty_pattern_map_finds_nothing() {
    let (source, tokens) = sample();
    let map: PatternMap<TokenPattern, u32> = PatternMap::default();
    assert_eq!(map.len(), 0);
    assert_eq!(map.lookup(&tokens, &source), None);
    assert_eq!(map.lookup(&tokens[..0], &source), None);
    assert_eq!(map.matches(&tokens, &source), 0);
}

#[test]
fn pattern_map_resolves_first_inserted_match() {
    let (source, tokens) = sample();
    let mut map: PatternMap<SequencePattern<TokenPattern>, &str> = PatternMap::new();
    map.insert(
        SequencePattern::new().followed_by(TokenPattern::Whitespace),
        "space",
    );
    assert_eq!(map.lookup(&tokens, &source), None);
    map.insert(
        SequencePattern::new()
            .followed_by(TokenPattern::Kind(TokenKind::Word))
            .followed_by(TokenPattern::Whitespace),
        "word and space",
    );
    map.insert(
        SequencePattern::new().followed_by(TokenPattern::Kind(TokenKind::Word)),
        "word",
    );
    assert_eq!(map.len(), 3);
    assert_eq!(map.lookup(&tokens, &source), Some(&"word and space"));
    assert_eq!(map.matches(&tokens, &source), 2);
    assert_eq!(map.lookup(&tokens[1..], &source), Some(&"space"));
    assert_eq!(map.matches(&tokens[1..], &source), 1);
    assert_eq!(map.lookup(&tokens[2..], &source), Some(&"word"));
    assert_eq!(map.matches(&tokens[2..], &source), 1);
    assert_eq!(map.lookup(&tokens[3..], &source), None);
    assert_eq!(map.matches(&tokens[3..], &source), 0);
}

#[test]
fn pattern_map_nests_in_a_sequence() {
    let (source, tokens) = sample();
    let mut map: PatternMap<TokenPattern, u8> = PatternMap::new();
    map.insert(TokenPattern::Whitespace, 1);
    map.insert(TokenPattern::Kind(TokenKind::Hyphen), 2);
    let mut word: PatternMap<TokenPattern, u8> = PatternMap::new();
    word.insert(TokenPattern::Kind(TokenKind::Word), 0);
    let sequence = SequencePattern::new().followed_by(word).followed_by(map);
    assert_eq!(sequence.matches(&tokens, &source), 2);
    assert_eq!(sequence.matches(&tokens[2..], &source), 2);
    assert_eq!(sequence.matches(&tokens[1..], &source), 0);
}

#[test]
fn find_matches_reports_every_start() {
    let (source, tokens) = sample();
    let pattern = TokenPattern::Kind(TokenKind::Word);
    assert_eq!(find_matches(&pattern, &tokens, &source), vec![(0, 1), (2, 1), (4, 1)]);
    let pair = SequencePattern::new()
        .followed_by(TokenPattern::Kind(TokenKind::Word))
        .followed_by(TokenPattern::Kind(TokenKind::Hyphen));
    assert_eq!(find_matches(&pair, &tokens, &source), vec![(2, 2)]);
    assert_eq!(find_matches(&pair, &tokens[..0], &source), vec![]);
}

#[test]
fn case_patterns() {
    assert_eq!(detect_case(&chars("CHALK FULL")), CasePattern::AllCaps);
    assert_eq!(detect_case(&chars("Chalk full")), CasePattern::Capitalized);
    assert_eq!(detect_case(&chars("chalk Full")), CasePattern::Lowercase);
    assert_eq!(detect_case(&chars("")), CasePattern::Lowercase);
    assert_eq!(match_case(&chars("chock-full"), &chars("CHALK-FULL")), chars("CHOCK-FULL"));
    assert_eq!(match_case(&chars("chock-full"), &chars("Chalk full")), chars("Chock-full"));
    assert_eq!(match_case(&chars("Chock-Full"), &chars("choke full")), chars("chock-full"));
}
