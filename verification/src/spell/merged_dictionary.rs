//! One dictionary that stands for several.
use vstd::prelude::*;
use std::sync::Arc;
use crate::spell::{
    match_views, rank_matches, ranks, within_reach, word_texts, words_of_len, Dictionary,
    FuzzyMatch, FuzzyMatchResult, WordMetadata,
};

verus! {

/// The preferred casing that the first of the children from index `i` on
/// gives for the word.
pub open spec fn first_capitalization<D: Dictionary>(children: Seq<Arc<D>>, i: nat, word: Seq<char>) -> Option<
    Seq<char>,
>
    decreases children.len() - i,
{
    if i >= children.len() {
        None
    } else if children[i as int].capitalization(word) is Some {
        children[i as int].capitalization(word)
    } else {
        first_capitalization(children, i + 1, word)
    }
}

/// The attributes that the first `n` children hold for the word, merged
/// in order; nothing where none of them knows it.
pub open spec fn merged_metadata<D: Dictionary>(children: Seq<Arc<D>>, n: nat, word: Seq<char>) -> Option<
    WordMetadata,
>
    decreases n,
{
    if n == 0 {
        None
    } else {
        let earlier = merged_metadata(children, (n - 1) as nat, word);
        match children[n - 1].metadata(word) {
            None => earlier,
            Some(found) => Some(
                match earlier {
                    None => WordMetadata::empty().union(found),
                    Some(merged) => merged.union(found),
                },
            ),
        }
    }
}

/// The word lists of the first `n` children, one after the other.
pub open spec fn joined_words<D: Dictionary>(children: Seq<Arc<D>>, n: nat) -> Seq<Seq<char>>
    decreases n,
{
    if n == 0 {
        Seq::empty()
    } else {
        joined_words(children, (n - 1) as nat) + children[n - 1].word_list()
    }
}

/// The counts of the first `n` children, added up.
pub open spec fn summed_count<D: Dictionary>(children: Seq<Arc<D>>, n: nat) -> nat
    decreases n,
{
    if n == 0 {
        0
    } else {
        summed_count(children, (n - 1) as nat) + children[n - 1].count()
    }
}

/// The given lists of matches, one after the other.
pub open spec fn joined_matches(parts: Seq<Seq<FuzzyMatch>>) -> Seq<FuzzyMatch>
    decreases parts.len(),
{
    if parts.len() == 0 {
        Seq::empty()
    } else {
        joined_matches(parts.drop_last()) + parts.last()
    }
}

/// Makes another pointer to a shared value with `Arc::clone`, which
/// copies the pointer and leaves the value it points to alone: the new
/// pointer stands for the same value as the old one.
#[verifier::external_body]
fn share<T>(pointer: &Arc<T>) -> (shared: Arc<T>)
    ensures
        shared == *pointer,
{
    Arc::clone(pointer)
}

/// A dictionary that federates an ordered list of shared child
/// dictionaries without copying their words.
pub struct MergedDictionary<D: Dictionary> {
    children: Vec<Arc<D>>,
}

impl<D: Dictionary> View for MergedDictionary<D> {
    type V = Seq<Arc<D>>;

    /// The children in the order in which they were added.
    closed spec fn view(&self) -> Seq<Arc<D>> {
        self.children@
    }
}

impl<D: Dictionary> MergedDictionary<D> {
    /// A merged dictionary without children: it knows no word.
    pub fn new() -> (merged: Self)
        ensures
            merged@.len() == 0,
    {
        MergedDictionary { children: Vec::new() }
    }

    /// Adds a child behind those already there.
    pub fn add_dictionary(&mut self, dictionary: Arc<D>)
        ensures
            final(self)@ == old(self)@.push(dictionary),
    {
        self.children.push(dictionary);
    }
}

impl<D: Dictionary> Default for MergedDictionary<D> {
    fn default() -> (merged: Self)
        ensures
            merged@.len() == 0,
    {
        MergedDictionary::new()
    }
}

impl<D: Dictionary> Clone for MergedDictionary<D> {
    /// The copy shares the children.
    fn clone(&self) -> (copy: Self)
        ensures
            copy@ == self@,
    {
        let mut children: Vec<Arc<D>> = Vec::new();
        let mut i: usize = 0;
        while i < self.children.len()
            invariant
                i <= self.children@.len(),
                children@ == self.children@.subrange(0, i as int),
            decreases self.children@.len() - i,
        {
            children.push(share(&self.children[i]));
            i += 1;
            assert(children@ =~= self.children@.subrange(0, i as int));
        }
        assert(children@ =~= self.children@);
        MergedDictionary { children }
    }
}

impl<D: Dictionary> Dictionary for MergedDictionary<D> {
    open spec fn knows(&self, word: Seq<char>) -> bool {
        exists|i: int| 0 <= i < self@.len() && (#[trigger] self@[i]).knows(word)
    }

    open spec fn knows_exactly(&self, word: Seq<char>) -> bool {
        exists|i: int| 0 <= i < self@.len() && (#[trigger] self@[i]).knows_exactly(word)
    }

    open spec fn capitalization(&self, word: Seq<char>) -> Option<Seq<char>> {
        first_capitalization(self@, 0, word)
    }

    open spec fn metadata(&self, word: Seq<char>) -> Option<WordMetadata> {
        merged_metadata(self@, self@.len(), word)
    }

    open spec fn word_list(&self) -> Seq<Seq<char>> {
        joined_words(self@, self@.len())
    }

    open spec fn count(&self) -> nat {
        summed_count(self@, self@.len())
    }

    /// Each child answers for itself with the same limits, and the answers,
    /// joined in the children's order, are ranked once more.
    open spec fn fuzzy_answer(
        &self,
        word: Seq<char>,
        max_distance: u8,
        max_results: nat,
        answer: Seq<FuzzyMatch>,
    ) -> bool {
        exists|parts: Seq<Seq<FuzzyMatch>>|
            {
                &&& parts.len() == self@.len()
                &&& forall|i: int|
                    0 <= i < parts.len() ==> (#[trigger] self@[i]).fuzzy_answer(
                        word,
                        max_distance,
                        max_results,
                        parts[i],
                    )
                &&& #[trigger] ranks(joined_matches(parts), max_results, answer)
            }
    }

    /// True as soon as any child knows the word.
    fn contains_word(&self, word: &[char]) -> (found: bool)
        ensures
            found <==> exists|i: int| 0 <= i < self@.len() && (#[trigger] self@[i]).knows(word@),
    {
        let mut i: usize = 0;
        while i < self.children.len()
            invariant
                i <= self.children@.len(),
                forall|j: int| 0 <= j < i ==> !(#[trigger] self@[j]).knows(word@),
            decreases self.children@.len() - i,
        {
            if self.children[i].contains_word(word) {
                assert(self@[i as int].knows(word@));
                return true;
            }
            i += 1;
        }
        false
    }

    /// True as soon as any child holds the word in this form.
    fn contains_exact_word(&self, word: &[char]) -> (found: bool)
        ensures
            found <==> exists|i: int| 0 <= i < self@.len() && (#[trigger] self@[i]).knows_exactly(word@),
    {
        let mut i: usize = 0;
        while i < self.children.len()
            invariant
                i <= self.children@.len(),
                forall|j: int| 0 <= j < i ==> !(#[trigger] self@[j]).knows_exactly(word@),
            decreases self.children@.len() - i,
        {
            if self.children[i].contains_exact_word(word) {
                assert(self@[i as int].knows_exactly(word@));
                return true;
            }
            i += 1;
        }
        false
    }

    /// The answer of the first child that has one.
    fn get_correct_capitalization_of(&self, word: &[char]) -> (canonical: Option<&[char]>)
        ensures
            canonical is Some <==> first_capitalization(self@, 0, word@) is Some,
            canonical is Some ==> canonical->0@ == first_capitalization(self@, 0, word@)->0,
    {
        let mut i: usize = 0;
        while i < self.children.len()
            invariant
                i <= self.children@.len(),
                first_capitalization(self@, 0, word@) == first_capitalization(self@, i as nat, word@),
            decreases self.children@.len() - i,
        {
            let found = self.children[i].get_correct_capitalization_of(word);
            if found.is_some() {
                return found;
            }
            i += 1;
        }
        None
    }

    /// The union of what the children hold for the word.
    fn get_word_metadata(&self, word: &[char]) -> (metadata: Option<WordMetadata>)
        ensures
            metadata == merged_metadata(self@, self@.len(), word@),
    {
        let mut found_anything = false;
        let mut found_metadata = WordMetadata::new();
        let mut i: usize = 0;
        while i < self.children.len()
            invariant
                i <= self.children@.len(),
                found_anything == (merged_metadata(self@, i as nat, word@) is Some),
                found_anything ==> merged_metadata(self@, i as nat, word@) == Some(found_metadata),
                !found_anything ==> found_metadata == WordMetadata::empty(),
            decreases self.children@.len() - i,
        {
            if let Some(found_item) = self.children[i].get_word_metadata(word) {
                found_metadata.append(&found_item);
                found_anything = true;
            }
            i += 1;
        }
        if found_anything {
            Some(found_metadata)
        } else {
            None
        }
    }

    /// Each child's words in turn; a word of several children comes once
    /// for each.
    fn words_iter(&self) -> (words: Vec<&[char]>)
        ensures
            word_texts(words@) == joined_words(self@, self@.len()),
    {
        let mut words: Vec<&[char]> = Vec::new();
        let mut i: usize = 0;
        while i < self.children.len()
            invariant
                i <= self.children@.len(),
                word_texts(words@) == joined_words(self@, i as nat),
            decreases self.children@.len() - i,
        {
            let mut more = self.children[i].words_iter();
            let ghost before = words@;
            let ghost added = more@;
            words.append(&mut more);
            assert(word_texts(before + added) =~= word_texts(before) + word_texts(added));
            i += 1;
        }
        words
    }

    fn words_with_len_iter(&self, len: usize) -> (words: Vec<&[char]>)
        ensures
            word_texts(words@) == words_of_len(joined_words(self@, self@.len()), len as nat),
    {
        let mut words: Vec<&[char]> = Vec::new();
        let mut i: usize = 0;
        while i < self.children.len()
            invariant
                i <= self.children@.len(),
                word_texts(words@) == words_of_len(joined_words(self@, i as nat), len as nat),
            decreases self.children@.len() - i,
        {
            let mut more = self.children[i].words_with_len_iter(len);
            let ghost before = words@;
            let ghost added = more@;
            words.append(&mut more);
            proof {
                assert(word_texts(before + added) =~= word_texts(before) + word_texts(added));
                Seq::filter_distributes_over_add(
                    joined_words(self@, i as nat),
                    self@[i as int].word_list(),
                    |w: Seq<char>| w.len() == len as nat,
                );
            }
            i += 1;
        }
        words
    }

    /// Every child's own best matches, joined, sorted by distance and cut
    /// to `max_results`.
    fn fuzzy_match(&self, word: &[char], max_distance: u8, max_results: usize) -> (results: Vec<
        FuzzyMatchResult,
    >)
        ensures
            exists|parts: Seq<Seq<FuzzyMatch>>|
                {
                    &&& parts.len() == self@.len()
                    &&& forall|i: int|
                        0 <= i < parts.len() ==> (#[trigger] self@[i]).fuzzy_answer(
                            word@,
                            max_distance,
                            max_results as nat,
                            parts[i],
                        )
                    &&& #[trigger] ranks(joined_matches(parts), max_results as nat, match_views(results@))
                },
    {
        let mut candidates: Vec<FuzzyMatchResult> = Vec::new();
        let ghost mut parts: Seq<Seq<FuzzyMatch>> = Seq::empty();
        let mut i: usize = 0;
        while i < self.children.len()
            invariant
                i <= self.children@.len(),
                parts.len() == i,
                forall|j: int|
                    0 <= j < i ==> (#[trigger] self@[j]).fuzzy_answer(
                        word@,
                        max_distance,
                        max_results as nat,
                        parts[j],
                    ),
                match_views(candidates@) == joined_matches(parts),
                forall|k: int|
                    0 <= k < candidates@.len() ==> {
                        let found = #[trigger] match_views(candidates@)[k];
                        self.knows_exactly(found.word) && within_reach(word@, max_distance, found)
                    },
            decreases self.children@.len() - i,
        {
            let mut more = self.children[i].fuzzy_match(word, max_distance, max_results);
            let ghost before = candidates@;
            let ghost added = more@;
            candidates.append(&mut more);
            proof {
                assert(match_views(before + added) =~= match_views(before) + match_views(added));
                assert(parts.push(match_views(added)).drop_last() =~= parts);
                parts = parts.push(match_views(added));
                assert forall|k: int| 0 <= k < candidates@.len() implies {
                    let found = #[trigger] match_views(candidates@)[k];
                    self.knows_exactly(found.word) && within_reach(word@, max_distance, found)
                } by {
                    if k < before.len() {
                        assert(match_views(candidates@)[k] == match_views(before)[k]);
                    } else {
                        let found = match_views(added)[k - before.len()];
                        assert(match_views(candidates@)[k] == found);
                        assert(self@[i as int].knows_exactly(found.word));
                    }
                }
            }
            i += 1;
        }
        let results = rank_matches(candidates, max_results);
        proof {
            assert forall|k: int| 0 <= k < results@.len() implies {
                let found = #[trigger] match_views(results@)[k];
                self.knows_exactly(found.word) && within_reach(word@, max_distance, found)
            } by {
                let found = match_views(results@)[k];
                assert(match_views(candidates@).contains(found));
                let j = choose|j: int|
                    0 <= j < match_views(candidates@).len() && match_views(candidates@)[j] == found;
                assert(within_reach(word@, max_distance, match_views(candidates@)[j]));
            }
        }
        results
    }

    /// The children's counts added up; a word of several children counts
    /// once for each.
    fn word_count(&self) -> (n: usize)
        ensures
            n == summed_count(self@, self@.len()),
    {
        let mut n: usize = 0;
        let mut i: usize = 0;
        while i < self.children.len()
            invariant
                i <= self.children@.len(),
                n == summed_count(self@, i as nat),
                summed_count(self@, self@.len()) <= usize::MAX,
            decreases self.children@.len() - i,
        {
            proof {
                lemma_summed_count_grows(self@, (i + 1) as nat, self@.len());
            }
            n = n + self.children[i].word_count();
            i += 1;
        }
        n
    }
}

impl<D: Dictionary> PartialEq for MergedDictionary<D> {
    /// Merged dictionaries are not compared by content: no two are equal.
    fn eq(&self, other: &Self) -> (equal: bool) {
        false
    }
}

impl<D: Dictionary> vstd::std_specs::cmp::PartialEqSpecImpl for MergedDictionary<D> {
    open spec fn obeys_eq_spec() -> bool {
        true
    }

    open spec fn eq_spec(&self, other: &Self) -> bool {
        false
    }
}

/// The child at index `k` decides the capitalization when it has one and
/// no earlier child has.
pub proof fn lemma_first_child_with_capitalization_wins<D: Dictionary>(
    merged: MergedDictionary<D>,
    k: int,
    word: Seq<char>,
)
    requires
        0 <= k < merged@.len(),
        merged@[k].capitalization(word) is Some,
        forall|j: int| 0 <= j < k ==> (#[trigger] merged@[j]).capitalization(word) is None,
    ensures
        merged.capitalization(word) == merged@[k].capitalization(word),
{
    lemma_capitalization_skips(merged@, 0, k, word);
}

proof fn lemma_capitalization_skips<D: Dictionary>(children: Seq<Arc<D>>, i: int, k: int, word: Seq<char>)
    requires
        0 <= i <= k < children.len(),
        children[k].capitalization(word) is Some,
        forall|j: int| i <= j < k ==> (#[trigger] children[j]).capitalization(word) is None,
    ensures
        first_capitalization(children, i as nat, word) == children[k].capitalization(word),
    decreases k - i,
{
    if i < k {
        lemma_capitalization_skips(children, i + 1, k, word);
    }
}

/// No capitalization comes out exactly when no child has one.
pub proof fn lemma_no_capitalization<D: Dictionary>(merged: MergedDictionary<D>, word: Seq<char>)
    ensures
        merged.capitalization(word) is None <==> forall|j: int|
            0 <= j < merged@.len() ==> (#[trigger] merged@[j]).capitalization(word) is None,
{
    lemma_no_capitalization_from(merged@, 0, word);
}

proof fn lemma_no_capitalization_from<D: Dictionary>(children: Seq<Arc<D>>, i: int, word: Seq<char>)
    requires
        0 <= i <= children.len(),
    ensures
        first_capitalization(children, i as nat, word) is None <==> forall|j: int|
            i <= j < children.len() ==> (#[trigger] children[j]).capitalization(word) is None,
    decreases children.len() - i,
{
    if i < children.len() {
        lemma_no_capitalization_from(children, i + 1, word);
    }
}

/// With two children of which only the second holds the exact word, the
/// merged dictionary holds it too; and where the first has no preferred
/// casing for the word, the second child's casing is the answer.
pub proof fn lemma_second_child_answers<D: Dictionary>(merged: MergedDictionary<D>, word: Seq<char>)
    requires
        merged@.len() == 2,
        !merged@[0].knows_exactly(word),
        merged@[1].knows_exactly(word),
        merged@[0].capitalization(word) is None,
    ensures
        merged.knows_exactly(word),
        merged.capitalization(word) == merged@[1].capitalization(word),
{
    reveal_with_fuel(first_capitalization, 3);
}

/// The merged attributes of a word hold every attribute that any child
/// holds for it, and there are none exactly when no child knows the word.
pub proof fn lemma_merged_metadata_holds_all<D: Dictionary>(merged: MergedDictionary<D>, word: Seq<char>)
    ensures
        merged.metadata(word) is None <==> forall|j: int|
            0 <= j < merged@.len() ==> (#[trigger] merged@[j]).metadata(word) is None,
        forall|j: int|
            0 <= j < merged@.len() && (#[trigger] merged@[j]).metadata(word) is Some ==> merged.metadata(word)
                is Some && merged.metadata(word)->0.includes(merged@[j].metadata(word)->0),
{
    lemma_merged_metadata_prefix(merged@, merged@.len(), word);
}

proof fn lemma_merged_metadata_prefix<D: Dictionary>(children: Seq<Arc<D>>, n: nat, word: Seq<char>)
    requires
        n <= children.len(),
    ensures
        merged_metadata(children, n, word) is None <==> forall|j: int|
            0 <= j < n ==> (#[trigger] children[j]).metadata(word) is None,
        forall|j: int|
            0 <= j < n && (#[trigger] children[j]).metadata(word) is Some ==> merged_metadata(children, n, word)
                is Some && merged_metadata(children, n, word)->0.includes(children[j].metadata(word)->0),
    decreases n,
{
    if n > 0 {
        lemma_merged_metadata_prefix(children, (n - 1) as nat, word);
    }
}

/// With two children that both know the word, the merged attributes are
/// the union of theirs.
pub proof fn lemma_two_children_metadata_union<D: Dictionary>(merged: MergedDictionary<D>, word: Seq<char>)
    requires
        merged@.len() == 2,
        merged@[0].metadata(word) is Some,
        merged@[1].metadata(word) is Some,
    ensures
        merged.metadata(word) == Some(
            WordMetadata::empty().union(merged@[0].metadata(word)->0).union(merged@[1].metadata(word)->0),
        ),
        merged.metadata(word)->0.includes(merged@[0].metadata(word)->0),
        merged.metadata(word)->0.includes(merged@[1].metadata(word)->0),
{
    reveal_with_fuel(merged_metadata, 3);
}

/// A merged dictionary without children knows no word and answers every
/// lookup with nothing.
pub proof fn lemma_no_children_no_answers<D: Dictionary>(merged: MergedDictionary<D>, word: Seq<char>)
    requires
        merged@.len() == 0,
    ensures
        !merged.knows(word),
        !merged.knows_exactly(word),
        merged.capitalization(word) is None,
        merged.metadata(word) is None,
        merged.word_list() == Seq::<Seq<char>>::empty(),
        merged.count() == 0,
{
}

/// Adding children never lowers the summed count.
pub proof fn lemma_summed_count_grows<D: Dictionary>(children: Seq<Arc<D>>, n: nat, m: nat)
    requires
        n <= m,
    ensures
        summed_count(children, n) <= summed_count(children, m),
    decreases m - n,
{
    if n < m {
        lemma_summed_count_grows(children, n, (m - 1) as nat);
    }
}

} // verus!
