use harper_core::spell::edit_distance::bounded_edit_distance;
use harper_core::spell::merged_dictionary::MergedDictionary;
use harper_core::spell::word_list::WordList;
use harper_core::spell::{rank_matches, Dictionary, FuzzyMatchResult, WordMetadata};
use std::sync::Arc;

fn chars(text: &str) -> Vec<char> {
    text.chars().collect()
}

fn noun() -> WordMetadata {
    let mut metadata = WordMetadata::new();
    metadata.noun = true;
    metadata
}

fn verb() -> WordMetadata {
    let mut metadata = WordMetadata::new();
    metadata.verb = true;
    metadata
}

fn list(words: &[(&str, WordMetadata)]) -> Arc<WordList> {
    let mut list = WordList::new();
    for (word, metadata) in words {
        list.add_word(&chars(word), *metadata);
    }
    Arc::new(list)
}

fn found(word: &str, edit_distance: u8) -> FuzzyMatchResult {
    FuzzyMatchResult { word: chars(word), edit_distance }
}

fn merged(children: Vec<Arc<WordList>>) -> MergedDictionary<WordList> {
    let mut merged = MergedDictionary::new();
    for child in children {
        merged.add_dictionary(child);
    }
    merged
}

#[test]
fn metadata_append_is_a_union() {
    let mut a = noun();
    a.swear = Some(false);
    let mut b = verb();
    b.swear = Some(true);
    b.adverb = true;
    let mut merged = a;
    merged.append(&b);
    assert!(merged.noun && merged.verb && merged.adverb);
    assert!(!merged.adjective && !merged.conjunction);
    assert_eq!(merged.swear, Some(false));
    let mut other = WordMetadata::default();
    other.append(&b);
    assert_eq!(other, b);
    assert_eq!(WordMetadata::default(), WordMetadata::new());
}

#[test]
fn edit_distance_values() {
    assert_eq!(bounded_edit_distance(&chars("kitten"), &chars("sitting")), 3);
    assert_eq!(bounded_edit_distance(&chars("flaw"), &chars("lawn")), 2);
    assert_eq!(bounded_edit_distance(&chars(""), &chars("abc")), 3);
    assert_eq!(bounded_edit_distance(&chars("abc"), &chars("")), 3);
    assert_eq!(bounded_edit_distance(&chars("same"), &chars("same")), 0);
    let long: Vec<char> = std::iter::repeat('a').take(300).collect();
    assert_eq!(bounded_edit_distance(&long, &chars("")), 256);
    assert_eq!(bounded_edit_distance(&chars("b"), &long), 256);
}

#[test]
fn rank_matches_sorts_stably_and_cuts() {
    let candidates = vec![found("c", 2), found("a", 0), found("d", 2), found("b", 1), found("e", 0)];
    assert_eq!(
        rank_matches(candidates.clone(), 10),
        vec![found("a", 0), found("e", 0), found("b", 1), found("c", 2), found("d", 2)]
    );
    assert_eq!(rank_matches(candidates.clone(), 3), vec![found("a", 0), found("e", 0), found("b", 1)]);
    assert_eq!(rank_matches(candidates, 0), vec![]);
    assert_eq!(rank_matches(Vec::new(), 4), vec![]);
}

#[test]
fn word_list_answers() {
    let words = list(&[("Paris", noun()), ("run", verb()), ("paris", verb())]);
    assert!(words.contains_word(&chars("PARIS")));
    assert!(words.contains_word_str("RUN"));
    assert!(!words.contains_word_str("walk"));
    assert!(words.contains_exact_word(&chars("paris")));
    assert!(words.contains_exact_word_str("Paris"));
    assert!(!words.contains_exact_word_str("PARIS"));
    assert_eq!(words.get_correct_capitalization_of(&chars("paris")), Some(&chars("Paris")[..]));
    assert_eq!(words.get_correct_capitalization_of(&chars("walk")), None);
    assert_eq!(words.get_word_metadata(&chars("paris")), Some(noun()));
    assert_eq!(words.get_word_metadata_str("Run"), Some(verb()));
    assert_eq!(words.get_word_metadata_str("walk"), None);
    assert_eq!(words.word_count(), 3);
    assert_eq!(words.words_iter(), vec![&chars("Paris")[..], &chars("run")[..], &chars("paris")[..]]);
    assert_eq!(words.words_with_len_iter(3), vec![&chars("run")[..]]);
    assert_eq!(words.words_with_len_iter(4).len(), 0);
}

#[test]
fn word_list_fuzzy_match() {
    let words = list(&[("cart", noun()), ("cat", noun()), ("dog", noun()), ("cot", noun()), ("bat", noun())]);
    assert_eq!(
        words.fuzzy_match(&chars("cat"), 1, 10),
        vec![found("cat", 0), found("cart", 1), found("cot", 1), found("bat", 1)]
    );
    assert_eq!(words.fuzzy_match_str("cat", 1, 2), vec![found("cat", 0), found("cart", 1)]);
    assert_eq!(words.fuzzy_match_str("cat", 0, 5), vec![found("cat", 0)]);
    assert_eq!(words.fuzzy_match_str("zzzzzz", 2, 5), vec![]);
    assert_eq!(words.fuzzy_match_str("cat", 3, 0), vec![]);
}

#[test]
fn empty_merged_dictionary_knows_nothing() {
    let merged: MergedDictionary<WordList> = MergedDictionary::default();
    assert!(!merged.contains_word(&chars("word")));
    assert!(!merged.contains_exact_word(&chars("word")));
    assert_eq!(merged.get_correct_capitalization_of(&chars("word")), None);
    assert_eq!(merged.get_word_metadata(&chars("word")), None);
    assert_eq!(merged.words_iter().len(), 0);
    assert_eq!(merged.fuzzy_match(&chars("word"), 2, 5), vec![]);
    assert_eq!(merged.word_count(), 0);
}

#[test]
fn merged_dictionary_finds_word_of_second_child() {
    let first = list(&[("alpha", noun())]);
    let second = list(&[("Berlin", noun())]);
    let merged = merged(vec![first, second]);
    assert!(merged.contains_exact_word(&chars("Berlin")));
    assert!(merged.contains_exact_word_str("Berlin"));
    assert!(!merged.contains_exact_word_str("berlin"));
    assert!(merged.contains_word_str("berlin"));
    assert!(!merged.contains_word_str("gamma"));
    assert_eq!(merged.get_correct_capitalization_of(&chars("berlin")), Some(&chars("Berlin")[..]));
}

#[test]
fn merged_dictionary_first_child_decides_capitalization() {
    let first = list(&[("Word", noun())]);
    let second = list(&[("word", verb())]);
    let merged = merged(vec![first, second]);
    assert!(merged.contains_exact_word_str("word"));
    assert_eq!(merged.get_correct_capitalization_of(&chars("word")), Some(&chars("Word")[..]));
}

#[test]
fn merged_dictionary_unites_metadata() {
    let first = list(&[("run", noun())]);
    let second = list(&[("run", verb())]);
    let third = list(&[("walk", verb())]);
    let merged = merged(vec![first, second, third]);
    let metadata = merged.get_word_metadata(&chars("run")).expect("both children know the word");
    assert!(metadata.noun && metadata.verb);
    assert!(!metadata.adjective && !metadata.adverb && !metadata.conjunction);
    assert_eq!(metadata.swear, None);
    assert_eq!(merged.get_word_metadata_str("walk"), Some(verb()));
    assert_eq!(merged.get_word_metadata_str("fly"), None);
}

#[test]
fn merged_dictionary_enumerates_children_in_order() {
    let first = list(&[("one", noun()), ("three", noun())]);
    let second = list(&[("two", noun()), ("one", verb())]);
    let merged = merged(vec![first, second]);
    assert_eq!(
        merged.words_iter(),
        vec![&chars("one")[..], &chars("three")[..], &chars("two")[..], &chars("one")[..]]
    );
    assert_eq!(
        merged.words_with_len_iter(3),
        vec![&chars("one")[..], &chars("two")[..], &chars("one")[..]]
    );
    assert_eq!(merged.word_count(), 4);
}

#[test]
fn merged_fuzzy_match_is_sorted_and_capped() {
    let first = list(&[("cart", noun()), ("dog", noun()), ("bat", noun())]);
    let second = list(&[("cat", noun()), ("cot", noun())]);
    let merged = merged(vec![first, second]);
    assert_eq!(
        merged.fuzzy_match(&chars("cat"), 1, 10),
        vec![found("cat", 0), found("cart", 1), found("bat", 1), found("cot", 1)]
    );
    assert_eq!(merged.fuzzy_match_str("cat", 1, 2), vec![found("cat", 0), found("cart", 1)]);
    for limit in 0..6 {
        let results = merged.fuzzy_match_str("cat", 3, limit);
        assert!(results.len() <= limit);
        assert!(results.windows(2).all(|pair| pair[0].edit_distance <= pair[1].edit_distance));
    }
}

#[test]
fn merged_dictionary_child_cutoff_applies_before_merge() {
    let first = list(&[("cart", noun()), ("bat", noun())]);
    let second = list(&[("cat", noun())]);
    let merged = merged(vec![first, second]);
    assert_eq!(merged.fuzzy_match_str("cat", 1, 1), vec![found("cat", 0)]);
}

#[test]
fn merged_dictionaries_are_never_equal() {
    let child = list(&[("one", noun())]);
    let a = merged(vec![child.clone()]);
    let b = a.clone();
    assert!(a != b);
    assert!(!(a == a.clone()));
    assert_eq!(b.word_count(), 1);
}

#[test]
fn merged_dictionaries_nest() {
    let inner = merged(vec![list(&[("one", noun())]), list(&[("two", verb())])]);
    let mut outer: MergedDictionary<MergedDictionary<WordList>> = MergedDictionary::new();
    outer.add_dictionary(Arc::new(inner));
    assert!(outer.contains_word_str("TWO"));
    assert_eq!(outer.word_count(), 2);
}
