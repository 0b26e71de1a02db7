//! Patterns that look at the text of a single word token.
use vstd::prelude::*;
use crate::patterns::Pattern;
use crate::text::{chars_equal, chars_equal_ignoring_case, same_ignoring_case, str_to_chars};
use crate::token::{Token, TokenKind};

verus! {

/// The first token is a word whose span resolves against the buffer.
pub open spec fn leads_with_word(tokens: Seq<Token>, source: Seq<char>) -> bool {
    tokens.len() > 0 && tokens[0].kind == TokenKind::Word && tokens[0].span.fits(source)
}

/// 1 where the window starts with a word token whose text is exactly
/// `word`, else 0.
pub open spec fn exact_word_len(word: Seq<char>, tokens: Seq<Token>, source: Seq<char>) -> nat {
    if leads_with_word(tokens, source) && tokens[0].span.content(source) == word {
        1
    } else {
        0
    }
}

/// Matches one word token whose text is exactly a given word.
pub struct ExactWord {
    pub word: Vec<char>,
}

impl ExactWord {
    pub fn new(word: &str) -> (pattern: ExactWord)
        ensures
            pattern.word@ == word@,
    {
        ExactWord { word: str_to_chars(word) }
    }
}

impl Pattern for ExactWord {
    open spec fn match_len(&self, tokens: Seq<Token>, source: Seq<char>) -> nat {
        exact_word_len(self.word@, tokens, source)
    }

    proof fn lemma_match_fits(&self, tokens: Seq<Token>, source: Seq<char>) {
    }

    fn matches(&self, tokens: &[Token], source: &[char]) -> (len: usize) {
        if tokens.len() == 0 || !tokens[0].kind.is_word() {
            return 0;
        }
        match tokens[0].span.try_get_content(source) {
            Some(text) => if chars_equal(text, self.word.as_slice()) {
                1
            } else {
                0
            },
            None => 0,
        }
    }
}

/// Matches one word token whose text is, up to ASCII case, one of a fixed
/// list of words.
pub struct WordSet {
    pub words: Vec<Vec<char>>,
}

impl WordSet {
    /// Some listed word equals `text` up to ASCII case.
    pub open spec fn lists(&self, text: Seq<char>) -> bool {
        exists|i: int| 0 <= i < self.words@.len() && same_ignoring_case(text, (#[trigger] self.words@[i])@)
    }

    /// A set holding exactly the given words.
    pub fn all(words: &[&str]) -> (set: WordSet)
        ensures
            set.words@.len() == words@.len(),
            forall|i: int| 0 <= i < words@.len() ==> (#[trigger] set.words@[i])@ == words@[i]@,
    {
        let mut list: Vec<Vec<char>> = Vec::new();
        let mut i: usize = 0;
        while i < words.len()
            invariant
                i <= words@.len(),
                list@.len() == i,
                forall|j: int| 0 <= j < i ==> (#[trigger] list@[j])@ == words@[j]@,
            decreases words@.len() - i,
        {
            list.push(str_to_chars(words[i]));
            i += 1;
        }
        WordSet { words: list }
    }

    /// Whether some listed word equals `text` up to ASCII case.
    pub fn contains(&self, text: &[char]) -> (found: bool)
        ensures
            found == self.lists(text@),
    {
        let mut i: usize = 0;
        while i < self.words.len()
            invariant
                i <= self.words@.len(),
                forall|j: int| 0 <= j < i ==> !same_ignoring_case(text@, (#[trigger] self.words@[j])@),
            decreases self.words@.len() - i,
        {
            if chars_equal_ignoring_case(text, self.words[i].as_slice()) {
                return true;
            }
            i += 1;
        }
        false
    }
}

impl Pattern for WordSet {
    open spec fn match_len(&self, tokens: Seq<Token>, source: Seq<char>) -> nat {
        if leads_with_word(tokens, source) && self.lists(tokens[0].span.content(source)) {
            1
        } else {
            0
        }
    }

    proof fn lemma_match_fits(&self, tokens: Seq<Token>, source: Seq<char>) {
    }

    fn matches(&self, tokens: &[Token], source: &[char]) -> (len: usize) {
        if tokens.len() == 0 || !tokens[0].kind.is_word() {
            return 0;
        }
        match tokens[0].span.try_get_content(source) {
            Some(text) => if self.contains(text) {
                1
            } else {
                0
            },
            None => 0,
        }
    }
}

} // verus!
