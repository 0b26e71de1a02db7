//! A dictionary that stores its words in a list.
use vstd::prelude::*;
use vstd::slice::slice_to_vec;
use crate::spell::edit_distance::{bounded_edit_distance, edit_distance};
use crate::spell::{
    match_views, rank_matches, ranks, within_reach, word_texts, Dictionary, FuzzyMatch,
    FuzzyMatchResult, WordMetadata,
};
use crate::text::{chars_equal, chars_equal_ignoring_case, same_ignoring_case};

verus! {

/// Index of the first entry, from index `i` on, that equals the word up to
/// ASCII case.
pub open spec fn first_entry_for(entries: Seq<(Seq<char>, WordMetadata)>, i: nat, word: Seq<char>) -> Option<
    nat,
>
    decreases entries.len() - i,
{
    if i >= entries.len() {
        None
    } else if same_ignoring_case(entries[i as int].0, word) {
        Some(i)
    } else {
        first_entry_for(entries, i + 1, word)
    }
}

/// The words of the entries, in their order.
pub open spec fn entry_words(entries: Seq<(Seq<char>, WordMetadata)>) -> Seq<Seq<char>> {
    entries.map_values(|e: (Seq<char>, WordMetadata)| e.0)
}

/// Those of the first `n` entries that lie within `max_distance` edits of
/// the word, each with its distance, in the order of the entries.
pub open spec fn close_entries(
    entries: Seq<(Seq<char>, WordMetadata)>,
    n: nat,
    word: Seq<char>,
    max_distance: u8,
) -> Seq<FuzzyMatch>
    decreases n,
{
    if n == 0 {
        Seq::empty()
    } else {
        let earlier = close_entries(entries, (n - 1) as nat, word, max_distance);
        let distance = edit_distance(word, entries[n - 1].0);
        if distance <= max_distance {
            earlier.push(FuzzyMatch { word: entries[n - 1].0, edit_distance: distance as u8 })
        } else {
            earlier
        }
    }
}

/// A dictionary that holds its words, with their attributes, in the order
/// in which they were added. The form in which a word was added is its
/// preferred casing.
pub struct WordList {
    entries: Vec<(Vec<char>, WordMetadata)>,
}

impl View for WordList {
    type V = Seq<(Seq<char>, WordMetadata)>;

    closed spec fn view(&self) -> Seq<(Seq<char>, WordMetadata)> {
        self.entries@.map_values(|e: (Vec<char>, WordMetadata)| (e.0@, e.1))
    }
}

impl WordList {
    /// A list without words.
    pub fn new() -> (list: WordList)
        ensures
            list@.len() == 0,
    {
        WordList { entries: Vec::new() }
    }

    /// Adds a word behind those already there.
    pub fn add_word(&mut self, word: &[char], metadata: WordMetadata)
        ensures
            final(self)@ == old(self)@.push((word@, metadata)),
    {
        self.entries.push((slice_to_vec(word), metadata));
        assert(final(self)@ =~= old(self)@.push((word@, metadata)));
    }

    fn find(&self, word: &[char]) -> (index: Option<usize>)
        ensures
            match index {
                Some(i) => first_entry_for(self@, 0, word@) == Some(i as nat) && i < self.entries@.len(),
                None => first_entry_for(self@, 0, word@) is None,
            },
    {
        let mut i: usize = 0;
        while i < self.entries.len()
            invariant
                i <= self.entries@.len(),
                self@.len() == self.entries@.len(),
                first_entry_for(self@, 0, word@) == first_entry_for(self@, i as nat, word@),
            decreases self.entries@.len() - i,
        {
            if chars_equal_ignoring_case(self.entries[i].0.as_slice(), word) {
                return Some(i);
            }
            i += 1;
        }
        None
    }
}

impl Dictionary for WordList {
    open spec fn knows(&self, word: Seq<char>) -> bool {
        first_entry_for(self@, 0, word) is Some
    }

    open spec fn knows_exactly(&self, word: Seq<char>) -> bool {
        exists|i: int| 0 <= i < self@.len() && (#[trigger] self@[i]).0 == word
    }

    open spec fn capitalization(&self, word: Seq<char>) -> Option<Seq<char>> {
        match first_entry_for(self@, 0, word) {
            Some(i) => Some(self@[i as int].0),
            None => None,
        }
    }

    open spec fn metadata(&self, word: Seq<char>) -> Option<WordMetadata> {
        match first_entry_for(self@, 0, word) {
            Some(i) => Some(self@[i as int].1),
            None => None,
        }
    }

    open spec fn word_list(&self) -> Seq<Seq<char>> {
        entry_words(self@)
    }

    open spec fn count(&self) -> nat {
        self@.len()
    }

    /// The entries within reach of the word, ranked.
    open spec fn fuzzy_answer(
        &self,
        word: Seq<char>,
        max_distance: u8,
        max_results: nat,
        answer: Seq<FuzzyMatch>,
    ) -> bool {
        ranks(close_entries(self@, self@.len(), word, max_distance), max_results, answer)
    }

    /// Some entry equals the word up to ASCII case.
    fn contains_word(&self, word: &[char]) -> (found: bool)
        ensures
            found == (first_entry_for(self@, 0, word@) is Some),
    {
        self.find(word).is_some()
    }

    /// Some entry is the word, letter for letter.
    fn contains_exact_word(&self, word: &[char]) -> (found: bool)
        ensures
            found <==> exists|i: int| 0 <= i < self@.len() && (#[trigger] self@[i]).0 == word@,
    {
        let mut i: usize = 0;
        while i < self.entries.len()
            invariant
                i <= self.entries@.len(),
                self@.len() == self.entries@.len(),
                forall|j: int| 0 <= j < i ==> (#[trigger] self@[j]).0 != word@,
            decreases self.entries@.len() - i,
        {
            if chars_equal(self.entries[i].0.as_slice(), word) {
                assert(self@[i as int].0 == word@);
                return true;
            }
            i += 1;
        }
        false
    }

    /// The first entry that equals the word up to ASCII case, as it was
    /// added.
    fn get_correct_capitalization_of(&self, word: &[char]) -> (canonical: Option<&[char]>)
        ensures
            match first_entry_for(self@, 0, word@) {
                Some(i) => canonical is Some && canonical->0@ == self@[i as int].0,
                None => canonical is None,
            },
    {
        match self.find(word) {
            Some(i) => Some(self.entries[i].0.as_slice()),
            None => None,
        }
    }

    /// The attributes of the first entry that equals the word up to ASCII
    /// case.
    fn get_word_metadata(&self, word: &[char]) -> (metadata: Option<WordMetadata>)
        ensures
            metadata == match first_entry_for(self@, 0, word@) {
                Some(i) => Some(self@[i as int].1),
                None => None,
            },
    {
        match self.find(word) {
            Some(i) => Some(self.entries[i].1),
            None => None,
        }
    }

    fn words_iter(&self) -> (words: Vec<&[char]>)
        ensures
            word_texts(words@) == entry_words(self@),
    {
        let mut words: Vec<&[char]> = Vec::new();
        let mut i: usize = 0;
        while i < self.entries.len()
            invariant
                i <= self.entries@.len(),
                self@.len() == self.entries@.len(),
                word_texts(words@) == entry_words(self@).subrange(0, i as int),
            decreases self.entries@.len() - i,
        {
            let ghost before = words@;
            let word = self.entries[i].0.as_slice();
            words.push(word);
            proof {
                assert(word@ == self@[i as int].0);
                assert(word_texts(words@) =~= word_texts(before).push(word@));
                assert(entry_words(self@).subrange(0, i + 1) =~= entry_words(self@).subrange(0, i as int).push(
                    word@,
                ));
            }
            i += 1;
        }
        assert(entry_words(self@).subrange(0, i as int) =~= entry_words(self@));
        words
    }

    fn words_with_len_iter(&self, len: usize) -> (words: Vec<&[char]>) {
        let mut words: Vec<&[char]> = Vec::new();
        let mut i: usize = 0;
        let ghost has_len = |w: Seq<char>| w.len() == len as nat;
        assert(entry_words(self@).subrange(0, 0).filter(has_len) =~= Seq::<Seq<char>>::empty()) by {
            reveal(Seq::filter);
        }
        while i < self.entries.len()
            invariant
                i <= self.entries@.len(),
                self@.len() == self.entries@.len(),
                has_len == |w: Seq<char>| w.len() == len as nat,
                word_texts(words@) == entry_words(self@).subrange(0, i as int).filter(has_len),
            decreases self.entries@.len() - i,
        {
            let ghost before = entry_words(self@).subrange(0, i as int);
            let ghost next = entry_words(self@)[i as int];
            proof {
                assert(entry_words(self@).subrange(0, i + 1) =~= before.push(next));
                assert(before.push(next).drop_last() =~= before);
                reveal(Seq::filter);
            }
            if self.entries[i].0.len() == len {
                let ghost old_words = words@;
                words.push(self.entries[i].0.as_slice());
                assert(word_texts(words@) =~= word_texts(old_words).push(next));
            }
            i += 1;
        }
        assert(entry_words(self@).subrange(0, i as int) =~= entry_words(self@));
        words
    }

    /// The entries within `max_distance` edits of the word, nearest first,
    /// those at equal distance in the order of the entries, cut to
    /// `max_results`.
    fn fuzzy_match(&self, word: &[char], max_distance: u8, max_results: usize) -> (results: Vec<
        FuzzyMatchResult,
    >)
        ensures
            ranks(
                close_entries(self@, self@.len(), word@, max_distance),
                max_results as nat,
                match_views(results@),
            ),
    {
        let mut candidates: Vec<FuzzyMatchResult> = Vec::new();
        let mut i: usize = 0;
        while i < self.entries.len()
            invariant
                i <= self.entries@.len(),
                self@.len() == self.entries@.len(),
                match_views(candidates@) == close_entries(self@, i as nat, word@, max_distance),
                forall|k: int|
                    0 <= k < candidates@.len() ==> {
                        let found = #[trigger] match_views(candidates@)[k];
                        self.knows_exactly(found.word) && within_reach(word@, max_distance, found)
                    },
            decreases self.entries@.len() - i,
        {
            let distance: usize = bounded_edit_distance(word, self.entries[i].0.as_slice());
            if distance <= max_distance as usize {
                let ghost before = candidates@;
                let found = FuzzyMatchResult {
                    word: slice_to_vec(self.entries[i].0.as_slice()),
                    edit_distance: distance as u8,
                };
                candidates.push(found);
                proof {
                    assert(match_views(candidates@) =~= match_views(before).push(found@));
                    assert(self@[i as int].0 == found@.word);
                    assert(self.knows_exactly(found@.word) && within_reach(word@, max_distance, found@));
                }
            }
            i += 1;
        }
        let results = rank_matches(candidates, max_results);
        proof {
            assert forall|k: int| 0 <= k < results@.len() implies {
                let found = #[trigger] match_views(results@)[k];
                self.knows_exactly(found.word) && within_reach(word@, max_distance, found)
            } by {
                let found = match_views(results@)[k];
                assert(match_views(candidates@).contains(found));
                let j = choose|j: int|
                    0 <= j < match_views(candidates@).len() && match_views(candidates@)[j] == found;
                assert(within_reach(word@, max_distance, match_views(candidates@)[j]));
            }
        }
        results
    }

    fn word_count(&self) -> (n: usize)
        ensures
            n == self@.len(),
    {
        self.entries.len()
    }
}

} // verus!
