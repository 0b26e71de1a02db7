//! An ordered table from patterns to payloads.
use vstd::prelude::*;
use crate::patterns::Pattern;
use crate::token::Token;

verus! {

/// Index of the first row, from index `i` on, whose pattern matches the
/// window. A pattern that reports length 0 did not match.
pub open spec fn first_matching_row<P: Pattern, T>(
    rows: Seq<(P, T)>,
    i: nat,
    tokens: Seq<Token>,
    source: Seq<char>,
) -> Option<nat>
    decreases rows.len() - i,
{
    if i >= rows.len() {
        None
    } else if rows[i as int].0.match_len(tokens, source) != 0 {
        Some(i)
    } else {
        first_matching_row(rows, i + 1, tokens, source)
    }
}

struct Row<P, T> {
    key: P,
    element: T,
}

/// A map from patterns to arbitrary data.
///
/// Rows are tried in the order in which they were inserted, and the first
/// row whose pattern matches decides. Used as a pattern, the map matches
/// what that row's pattern matches; `lookup` on the same window then tells
/// which payload belongs to it.
pub struct PatternMap<P: Pattern, T> {
    rows: Vec<Row<P, T>>,
}

impl<P: Pattern, T> View for PatternMap<P, T> {
    type V = Seq<(P, T)>;

    /// The rows in insertion order.
    closed spec fn view(&self) -> Seq<(P, T)> {
        Seq::new(self.rows@.len(), |i: int| (self.rows@[i].key, self.rows@[i].element))
    }
}

impl<P: Pattern, T> Default for PatternMap<P, T> {
    fn default() -> (map: Self)
        ensures
            map@.len() == 0,
    {
        PatternMap { rows: Vec::new() }
    }
}

impl<P: Pattern, T> PatternMap<P, T> {
    /// A map without rows.
    pub fn new() -> (map: Self)
        ensures
            map@.len() == 0,
    {
        PatternMap { rows: Vec::new() }
    }

    /// Number of rows.
    pub fn len(&self) -> (n: usize)
        ensures
            n == self@.len(),
    {
        self.rows.len()
    }

    /// Appends a row; rows inserted earlier keep their precedence.
    pub fn insert(&mut self, pattern: P, value: T)
        ensures
            final(self)@ == old(self)@.push((pattern, value)),
    {
        self.rows.push(Row { key: pattern, element: value });
        assert(final(self)@ =~= old(self)@.push((pattern, value)));
    }

    /// The payload of the first row whose pattern matches the window.
    pub fn lookup(&self, tokens: &[Token], source: &[char]) -> (found: Option<&T>)
        ensures
            found == match first_matching_row(self@, 0, tokens@, source@) {
                Some(k) => Some(&self@[k as int].1),
                None => None,
            },
    {
        let mut i: usize = 0;
        while i < self.rows.len()
            invariant
                i <= self.rows@.len(),
                self@.len() == self.rows@.len(),
                first_matching_row(self@, 0, tokens@, source@) == first_matching_row(
                    self@,
                    i as nat,
                    tokens@,
                    source@,
                ),
            decreases self.rows@.len() - i,
        {
            let len: usize = self.rows[i].key.matches(tokens, source);
            if len != 0 {
                return Some(&self.rows[i].element);
            }
            i += 1;
        }
        None
    }
}

impl<P: Pattern, T> Pattern for PatternMap<P, T> {
    open spec fn match_len(&self, tokens: Seq<Token>, source: Seq<char>) -> nat {
        match first_matching_row(self@, 0, tokens, source) {
            Some(k) => self@[k as int].0.match_len(tokens, source),
            None => 0,
        }
    }

    proof fn lemma_match_fits(&self, tokens: Seq<Token>, source: Seq<char>) {
        lemma_first_matching_row(self@, 0, tokens, source);
        match first_matching_row(self@, 0, tokens, source) {
            Some(k) => {
                self@[k as int].0.lemma_match_fits(tokens, source);
            },
            None => {},
        }
    }

    /// The match length of the first row whose pattern matches.
    fn matches(&self, tokens: &[Token], source: &[char]) -> (len: usize)
        ensures
            len == match first_matching_row(self@, 0, tokens@, source@) {
                Some(k) => self@[k as int].0.match_len(tokens@, source@),
                None => 0,
            },
    {
        let mut i: usize = 0;
        while i < self.rows.len()
            invariant
                i <= self.rows@.len(),
                self@.len() == self.rows@.len(),
                first_matching_row(self@, 0, tokens@, source@) == first_matching_row(
                    self@,
                    i as nat,
                    tokens@,
                    source@,
                ),
            decreases self.rows@.len() - i,
        {
            let len: usize = self.rows[i].key.matches(tokens, source);
            if len != 0 {
                return len;
            }
            i += 1;
        }
        0
    }
}

/// What `first_matching_row` finds: a row that matches with none before it
/// that does, or nothing when no row matches.
pub proof fn lemma_first_matching_row<P: Pattern, T>(
    rows: Seq<(P, T)>,
    i: nat,
    tokens: Seq<Token>,
    source: Seq<char>,
)
    requires
        i <= rows.len(),
    ensures
        match first_matching_row(rows, i, tokens, source) {
            Some(k) => i <= k < rows.len() && rows[k as int].0.match_len(tokens, source) != 0 && forall|j: int|
                i <= j < k ==> (#[trigger] rows[j]).0.match_len(tokens, source) == 0,
            None => forall|j: int| i <= j < rows.len() ==> (#[trigger] rows[j]).0.match_len(tokens, source) == 0,
        },
    decreases rows.len() - i,
{
    if i < rows.len() && rows[i as int].0.match_len(tokens, source) == 0 {
        lemma_first_matching_row(rows, i + 1, tokens, source);
    }
}

/// A map without rows resolves no window and matches none.
pub proof fn lemma_empty_map_finds_nothing<P: Pattern, T>(
    map: PatternMap<P, T>,
    tokens: Seq<Token>,
    source: Seq<char>,
)
    requires
        map@.len() == 0,
    ensures
        first_matching_row(map@, 0, tokens, source) is None,
        map.match_len(tokens, source) == 0,
{
}

/// After a row `(pattern, value)` is appended, a window that `pattern`
/// matches and that no earlier row matches resolves to the new row, and
/// the map matches as `pattern` does.
pub proof fn lemma_inserted_row_resolves<P: Pattern, T>(
    before: PatternMap<P, T>,
    after: PatternMap<P, T>,
    pattern: P,
    value: T,
    tokens: Seq<Token>,
    source: Seq<char>,
)
    requires
        after@ == before@.push((pattern, value)),
        pattern.match_len(tokens, source) != 0,
        forall|j: int| 0 <= j < before@.len() ==> (#[trigger] before@[j]).0.match_len(tokens, source) == 0,
    ensures
        first_matching_row(after@, 0, tokens, source) == Some(before@.len()),
        after@[before@.len() as int].1 == value,
        after.match_len(tokens, source) == pattern.match_len(tokens, source),
{
    lemma_first_matching_row(after@, 0, tokens, source);
    let k = before@.len() as int;
    assert(after@[k] == (pattern, value));
    assert forall|j: int| 0 <= j < k implies after@[j] == before@[j] by {}
}

/// Appending a row changes nothing for a window that an earlier row
/// already matches.
pub proof fn lemma_earlier_row_keeps_precedence<P: Pattern, T>(
    before: PatternMap<P, T>,
    after: PatternMap<P, T>,
    pattern: P,
    value: T,
    tokens: Seq<Token>,
    source: Seq<char>,
)
    requires
        after@ == before@.push((pattern, value)),
        first_matching_row(before@, 0, tokens, source) is Some,
    ensures
        first_matching_row(after@, 0, tokens, source) == first_matching_row(before@, 0, tokens, source),
{
    lemma_first_matching_row(before@, 0, tokens, source);
    lemma_first_matching_row(after@, 0, tokens, source);
    assert forall|j: int| 0 <= j < before@.len() implies after@[j] == before@[j] by {}
}

} // verus!
