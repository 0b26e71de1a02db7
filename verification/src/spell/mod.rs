//! Word-level lexical knowledge: what a dictionary must answer, and the
//! values it answers with.
use vstd::prelude::*;
use itertools::Itertools;
use crate::spell::edit_distance::edit_distance;
use crate::text::str_to_chars;

pub mod edit_distance;
pub mod merged_dictionary;
pub mod word_list;

verus! {

/// Lexical attributes of a word. Merging two values keeps whatever either
/// of them holds.
#[derive(Clone, Copy, Debug, PartialEq, Eq)]
pub struct WordMetadata {
    pub noun: bool,
    pub verb: bool,
    pub adjective: bool,
    pub adverb: bool,
    pub conjunction: bool,
    /// Whether the word is a swear word, where that is known.
    pub swear: Option<bool>,
}

impl WordMetadata {
    /// The value that holds no attribute.
    pub open spec fn empty() -> WordMetadata {
        WordMetadata {
            noun: false,
            verb: false,
            adjective: false,
            adverb: false,
            conjunction: false,
            swear: None,
        }
    }

    /// Field by field: a flag is set if it is set on either side, and a
    /// single-valued attribute keeps this side's value where it has one.
    pub open spec fn union(self, other: WordMetadata) -> WordMetadata {
        WordMetadata {
            noun: self.noun || other.noun,
            verb: self.verb || other.verb,
            adjective: self.adjective || other.adjective,
            adverb: self.adverb || other.adverb,
            conjunction: self.conjunction || other.conjunction,
            swear: if self.swear is Some {
                self.swear
            } else {
                other.swear
            },
        }
    }

    /// Every attribute that `other` holds, this value holds too.
    pub open spec fn includes(self, other: WordMetadata) -> bool {
        &&& other.noun ==> self.noun
        &&& other.verb ==> self.verb
        &&& other.adjective ==> self.adjective
        &&& other.adverb ==> self.adverb
        &&& other.conjunction ==> self.conjunction
        &&& other.swear is Some ==> self.swear is Some
    }

    pub fn new() -> (metadata: WordMetadata)
        ensures
            metadata == WordMetadata::empty(),
    {
        WordMetadata {
            noun: false,
            verb: false,
            adjective: false,
            adverb: false,
            conjunction: false,
            swear: None,
        }
    }

    /// Adds the attributes of `other` to this value.
    pub fn append(&mut self, other: &WordMetadata)
        ensures
            *final(self) == old(self).union(*other),
    {
        self.noun = self.noun || other.noun;
        self.verb = self.verb || other.verb;
        self.adjective = self.adjective || other.adjective;
        self.adverb = self.adverb || other.adverb;
        self.conjunction = self.conjunction || other.conjunction;
        if self.swear.is_none() {
            self.swear = other.swear;
        }
    }
}

impl Default for WordMetadata {
    fn default() -> (metadata: WordMetadata)
        ensures
            metadata == WordMetadata::empty(),
    {
        WordMetadata::new()
    }
}

/// Merging never removes an attribute that either operand holds.
pub proof fn lemma_union_keeps_both(a: WordMetadata, b: WordMetadata)
    ensures
        a.union(b).includes(a),
        a.union(b).includes(b),
{
}

/// A word found by approximate lookup, with its distance from the query.
#[derive(Clone, Debug, PartialEq, Eq)]
pub struct FuzzyMatchResult {
    pub word: Vec<char>,
    pub edit_distance: u8,
}

/// A fuzzy match as a plain value.
pub struct FuzzyMatch {
    pub word: Seq<char>,
    pub edit_distance: u8,
}

impl View for FuzzyMatchResult {
    type V = FuzzyMatch;

    open spec fn view(&self) -> FuzzyMatch {
        FuzzyMatch { word: self.word@, edit_distance: self.edit_distance }
    }
}

/// The matches of a list as plain values.
pub open spec fn match_views(results: Seq<FuzzyMatchResult>) -> Seq<FuzzyMatch> {
    results.map_values(|r: FuzzyMatchResult| r@)
}

/// No match is farther from the query than one that comes after it.
pub open spec fn ascending_by_distance(matches: Seq<FuzzyMatch>) -> bool {
    forall|i: int, j: int| 0 <= i <= j < matches.len() ==> matches[i].edit_distance <= matches[j].edit_distance
}

/// The matches at distance `distance`, in the order in which they stand.
pub open spec fn at_distance(matches: Seq<FuzzyMatch>, distance: u8) -> Seq<FuzzyMatch> {
    matches.filter(|m: FuzzyMatch| m.edit_distance == distance)
}

/// `after` holds the matches of `before` in ascending order of distance,
/// those at equal distance in the order they had in `before`.
pub open spec fn sorted_stably(before: Seq<FuzzyMatch>, after: Seq<FuzzyMatch>) -> bool {
    &&& after.len() == before.len()
    &&& ascending_by_distance(after)
    &&& forall|distance: u8| #[trigger] at_distance(after, distance) == at_distance(before, distance)
}

/// Sorts matches by ascending edit distance with
/// `itertools::Itertools::sorted_by_key`, which collects the items and
/// sorts them with the standard stable sort. The contract claims what
/// that documentation promises: the same matches come back, in ascending
/// order of the key, and matches with equal keys keep their order.
#[verifier::external_body]
pub(crate) fn sort_by_edit_distance(results: Vec<FuzzyMatchResult>) -> (sorted: Vec<FuzzyMatchResult>)
    ensures
        sorted_stably(match_views(results@), match_views(sorted@)),
{
    results.into_iter().sorted_by_key(|r| r.edit_distance).collect()
}

/// The first `limit` matches, or all of them where there are fewer.
pub open spec fn first_matches(matches: Seq<FuzzyMatch>, limit: nat) -> Seq<FuzzyMatch> {
    if limit < matches.len() {
        matches.subrange(0, limit as int)
    } else {
        matches
    }
}

/// `answer` is what ranking `candidates` gives: the candidates sorted
/// stably by distance and cut to at most `max_results`.
pub open spec fn ranks(candidates: Seq<FuzzyMatch>, max_results: nat, answer: Seq<FuzzyMatch>) -> bool {
    exists|sorted: Seq<FuzzyMatch>| #[trigger]
        sorted_stably(candidates, sorted) && answer == first_matches(sorted, max_results)
}

/// Orders candidate matches by ascending distance and keeps the best
/// `max_results` of them.
pub fn rank_matches(candidates: Vec<FuzzyMatchResult>, max_results: usize) -> (best: Vec<FuzzyMatchResult>)
    ensures
        ranks(match_views(candidates@), max_results as nat, match_views(best@)),
        best@.len() <= max_results,
        best@.len() == if candidates@.len() < max_results { candidates@.len() } else { max_results as nat },
        ascending_by_distance(match_views(best@)),
        forall|i: int|
            0 <= i < best@.len() ==> match_views(candidates@).contains(#[trigger] match_views(best@)[i]),
{
    let mut sorted = sort_by_edit_distance(candidates);
    let ghost all = match_views(sorted@);
    sorted.truncate(max_results);
    proof {
        assert(match_views(sorted@) =~= first_matches(all, max_results as nat));
        assert(sorted_stably(match_views(candidates@), all));
        lemma_ranked_matches_are_candidates(
            match_views(candidates@),
            max_results as nat,
            match_views(sorted@),
        );
    }
    sorted
}

/// Two lists that are in ascending order and agree, distance by distance,
/// on their matches and the order of these, are the same list.
pub proof fn lemma_ascending_lists_agree(a: Seq<FuzzyMatch>, b: Seq<FuzzyMatch>)
    requires
        a.len() == b.len(),
        ascending_by_distance(a),
        ascending_by_distance(b),
        forall|distance: u8| #[trigger] at_distance(a, distance) == at_distance(b, distance),
    ensures
        a == b,
    decreases a.len(),
{
    if a.len() == 0 {
        assert(a =~= b);
    } else {
        reveal(Seq::filter);
        let x = a.last();
        let y = b.last();
        let d = x.edit_distance;
        let e = y.edit_distance;
        let a_rest = a.drop_last();
        let b_rest = b.drop_last();
        assert(at_distance(a, d) == at_distance(a_rest, d).push(x));
        assert(at_distance(b, e) == at_distance(b_rest, e).push(y));
        assert(at_distance(a, e) == at_distance(b, e));
        assert(at_distance(b, d) == at_distance(a, d));
        assert(at_distance(a, e).last() == y);
        assert(at_distance(b, d).last() == x);
        assert(at_distance(a, e).contains(y)) by {
            assert(at_distance(a, e)[at_distance(a, e).len() - 1] == y);
        }
        assert(at_distance(b, d).contains(x)) by {
            assert(at_distance(b, d)[at_distance(b, d).len() - 1] == x);
        }
        lemma_kept_was_there(a, e, y);
        lemma_kept_was_there(b, d, x);
        let k = choose|k: int| 0 <= k < a.len() && a[k] == y;
        assert(a[k].edit_distance <= a[a.len() - 1].edit_distance);
        let l = choose|l: int| 0 <= l < b.len() && b[l] == x;
        assert(b[l].edit_distance <= b[b.len() - 1].edit_distance);
        assert(d == e);
        assert(x == y);
        assert forall|distance: u8| #[trigger]
            at_distance(a_rest, distance) == at_distance(b_rest, distance) by {
            assert(at_distance(a, distance) == at_distance(b, distance));
            if distance == d {
                assert(at_distance(a_rest, d).push(x).drop_last() =~= at_distance(a_rest, d));
                assert(at_distance(b_rest, d).push(y).drop_last() =~= at_distance(b_rest, d));
            }
        }
        assert(ascending_by_distance(a_rest)) by {
            assert forall|i: int, j: int| 0 <= i <= j < a_rest.len() implies a_rest[i].edit_distance
                <= a_rest[j].edit_distance by {
                assert(a[i].edit_distance <= a[j].edit_distance);
            }
        }
        assert(ascending_by_distance(b_rest)) by {
            assert forall|i: int, j: int| 0 <= i <= j < b_rest.len() implies b_rest[i].edit_distance
                <= b_rest[j].edit_distance by {
                assert(b[i].edit_distance <= b[j].edit_distance);
            }
        }
        lemma_ascending_lists_agree(a_rest, b_rest);
        assert(a =~= a_rest.push(x));
        assert(b =~= b_rest.push(y));
    }
}

/// The candidates and the limit decide the ranking: there is one answer.
pub proof fn lemma_ranking_is_unique(
    candidates: Seq<FuzzyMatch>,
    max_results: nat,
    first: Seq<FuzzyMatch>,
    second: Seq<FuzzyMatch>,
)
    requires
        ranks(candidates, max_results, first),
        ranks(candidates, max_results, second),
    ensures
        first == second,
{
    let a = choose|sorted: Seq<FuzzyMatch>| #[trigger]
        sorted_stably(candidates, sorted) && first == first_matches(sorted, max_results);
    let b = choose|sorted: Seq<FuzzyMatch>| #[trigger]
        sorted_stably(candidates, sorted) && second == first_matches(sorted, max_results);
    assert forall|distance: u8| #[trigger] at_distance(a, distance) == at_distance(b, distance) by {
        assert(at_distance(a, distance) == at_distance(candidates, distance));
        assert(at_distance(b, distance) == at_distance(candidates, distance));
    }
    lemma_ascending_lists_agree(a, b);
}

/// What a filter keeps was in the list.
proof fn lemma_kept_was_there(matches: Seq<FuzzyMatch>, distance: u8, kept: FuzzyMatch)
    requires
        at_distance(matches, distance).contains(kept),
    ensures
        matches.contains(kept),
    decreases matches.len(),
{
    reveal(Seq::filter);
    if matches.len() > 0 {
        let earlier = matches.drop_last();
        if matches.last() == kept {
            assert(matches[matches.len() - 1] == kept);
        } else {
            let filtered = at_distance(matches, distance);
            let i = choose|i: int| 0 <= i < filtered.len() && filtered[i] == kept;
            assert(at_distance(earlier, distance)[i] == kept);
            lemma_kept_was_there(earlier, distance, kept);
            let j = choose|j: int| 0 <= j < earlier.len() && earlier[j] == kept;
            assert(matches[j] == kept);
        }
    }
}

/// Every match of a ranking was among the candidates.
pub proof fn lemma_ranked_matches_are_candidates(
    candidates: Seq<FuzzyMatch>,
    max_results: nat,
    answer: Seq<FuzzyMatch>,
)
    requires
        ranks(candidates, max_results, answer),
    ensures
        forall|i: int| 0 <= i < answer.len() ==> candidates.contains(#[trigger] answer[i]),
{
    let sorted = choose|sorted: Seq<FuzzyMatch>| #[trigger]
        sorted_stably(candidates, sorted) && answer == first_matches(sorted, max_results);
    assert forall|i: int| 0 <= i < answer.len() implies candidates.contains(#[trigger] answer[i]) by {
        let found = answer[i];
        assert(found == sorted[i]);
        let distance = found.edit_distance;
        sorted.lemma_filter_contains(|m: FuzzyMatch| m.edit_distance == distance, i);
        assert(at_distance(sorted, distance) == at_distance(candidates, distance));
        lemma_kept_was_there(candidates, distance, found);
    }
}

/// The texts that a list of borrowed words stands for.
pub open spec fn word_texts(words: Seq<&[char]>) -> Seq<Seq<char>> {
    words.map_values(|w: &[char]| w@)
}

/// The words of `words` that have exactly `len` characters.
pub open spec fn words_of_len(words: Seq<Seq<char>>, len: nat) -> Seq<Seq<char>> {
    words.filter(|w: Seq<char>| w.len() == len)
}

/// The match gives its word's true edit distance from `word`, and that
/// distance is at most `max_distance`.
pub open spec fn within_reach(word: Seq<char>, max_distance: u8, found: FuzzyMatch) -> bool {
    found.edit_distance == edit_distance(word, found.word) && found.edit_distance <= max_distance
}

/// What every dictionary answers, whether it stores words itself or
/// stands for several others.
pub trait Dictionary {
    /// The word is present under some casing the dictionary takes as equal.
    spec fn knows(&self, word: Seq<char>) -> bool;

    /// The word is present in exactly this form.
    spec fn knows_exactly(&self, word: Seq<char>) -> bool;

    /// The preferred casing of the word, where the dictionary has one.
    spec fn capitalization(&self, word: Seq<char>) -> Option<Seq<char>>;

    /// The attributes of the word, where the dictionary knows it.
    spec fn metadata(&self, word: Seq<char>) -> Option<WordMetadata>;

    /// The words in the order in which the dictionary enumerates them.
    spec fn word_list(&self) -> Seq<Seq<char>>;

    /// The number of words as this dictionary counts them.
    spec fn count(&self) -> nat;

    /// `answer` is a right answer to the approximate lookup of `word`.
    spec fn fuzzy_answer(
        &self,
        word: Seq<char>,
        max_distance: u8,
        max_results: nat,
        answer: Seq<FuzzyMatch>,
    ) -> bool;

    fn contains_word(&self, word: &[char]) -> (found: bool)
        ensures
            found == self.knows(word@),
    ;

    fn contains_exact_word(&self, word: &[char]) -> (found: bool)
        ensures
            found == self.knows_exactly(word@),
    ;

    fn get_correct_capitalization_of(&self, word: &[char]) -> (canonical: Option<&[char]>)
        ensures
            canonical is Some <==> self.capitalization(word@) is Some,
            canonical is Some ==> canonical->0@ == self.capitalization(word@)->0,
    ;

    fn get_word_metadata(&self, word: &[char]) -> (metadata: Option<WordMetadata>)
        ensures
            metadata == self.metadata(word@),
    ;

    /// Every word, in enumeration order.
    fn words_iter(&self) -> (words: Vec<&[char]>)
        ensures
            word_texts(words@) == self.word_list(),
    ;

    /// The words of exactly `len` characters, in enumeration order.
    fn words_with_len_iter(&self, len: usize) -> (words: Vec<&[char]>)
        ensures
            word_texts(words@) == words_of_len(self.word_list(), len as nat),
    ;

    /// Up to `max_results` known words within `max_distance` edits of
    /// `word`, nearest first.
    fn fuzzy_match(&self, word: &[char], max_distance: u8, max_results: usize) -> (results: Vec<
        FuzzyMatchResult,
    >)
        ensures
            self.fuzzy_answer(word@, max_distance, max_results as nat, match_views(results@)),
            results@.len() <= max_results,
            ascending_by_distance(match_views(results@)),
            forall|i: int|
                0 <= i < results@.len() ==> {
                    let found = #[trigger] match_views(results@)[i];
                    self.knows_exactly(found.word) && within_reach(word@, max_distance, found)
                },
    ;

    fn word_count(&self) -> (n: usize)
        requires
            self.count() <= usize::MAX,
        ensures
            n == self.count(),
    ;

    fn contains_word_str(&self, word: &str) -> (found: bool)
        ensures
            found == self.knows(word@),
    {
        let chars = str_to_chars(word);
        self.contains_word(chars.as_slice())
    }

    fn contains_exact_word_str(&self, word: &str) -> (found: bool)
        ensures
            found == self.knows_exactly(word@),
    {
        let chars = str_to_chars(word);
        self.contains_exact_word(chars.as_slice())
    }

    fn get_word_metadata_str(&self, word: &str) -> (metadata: Option<WordMetadata>)
        ensures
            metadata == self.metadata(word@),
    {
        let chars = str_to_chars(word);
        self.get_word_metadata(chars.as_slice())
    }

    fn fuzzy_match_str(&self, word: &str, max_distance: u8, max_results: usize) -> (results: Vec<
        FuzzyMatchResult,
    >)
        ensures
            self.fuzzy_answer(word@, max_distance, max_results as nat, match_views(results@)),
            results@.len() <= max_results,
            ascending_by_distance(match_views(results@)),
            forall|i: int|
                0 <= i < results@.len() ==> {
                    let found = #[trigger] match_views(results@)[i];
                    self.knows_exactly(found.word) && within_reach(word@, max_distance, found)
                },
    {
        let chars = str_to_chars(word);
        self.fuzzy_match(chars.as_slice(), max_distance, max_results)
    }
}

} // verus!
