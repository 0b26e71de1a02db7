//! Patterns built from other patterns.
use vstd::prelude::*;
use vstd::slice::slice_subrange;
use crate::patterns::word::{exact_word_len, ExactWord};
use crate::patterns::{Pattern, TokenPattern};
use crate::token::Token;

verus! {

/// What remains of a window after its first `cursor` tokens.
pub open spec fn rest_of(tokens: Seq<Token>, cursor: nat) -> Seq<Token> {
    tokens.subrange(cursor as int, tokens.len() as int)
}

/// Length matched by the steps from index `i` on, when the steps before
/// them have consumed `cursor` tokens: each step must match where the
/// previous one stopped, and one failure fails the whole.
pub open spec fn sequence_from<P: Pattern>(
    steps: Seq<P>,
    i: nat,
    tokens: Seq<Token>,
    source: Seq<char>,
    cursor: nat,
) -> nat
    decreases steps.len() - i,
{
    if i >= steps.len() {
        cursor
    } else {
        let n = steps[i as int].match_len(rest_of(tokens, cursor), source);
        if n == 0 {
            0
        } else {
            sequence_from(steps, i + 1, tokens, source, cursor + n)
        }
    }
}

/// Matches its steps one after the other, without backtracking.
pub struct SequencePattern<P: Pattern> {
    pub steps: Vec<P>,
}

impl<P: Pattern> SequencePattern<P> {
    /// The sequence with no steps, which matches nothing.
    pub fn new() -> (pattern: Self)
        ensures
            pattern.steps@.len() == 0,
    {
        SequencePattern { steps: Vec::new() }
    }

    /// Appends a step.
    pub fn followed_by(self, step: P) -> (pattern: Self)
        ensures
            pattern.steps@ == self.steps@.push(step),
    {
        let mut steps = self.steps;
        steps.push(step);
        SequencePattern { steps }
    }
}

impl<P: Pattern> Default for SequencePattern<P> {
    fn default() -> (pattern: Self)
        ensures
            pattern.steps@.len() == 0,
    {
        SequencePattern::new()
    }
}

impl<P: Pattern> Pattern for SequencePattern<P> {
    open spec fn match_len(&self, tokens: Seq<Token>, source: Seq<char>) -> nat {
        sequence_from(self.steps@, 0, tokens, source, 0)
    }

    proof fn lemma_match_fits(&self, tokens: Seq<Token>, source: Seq<char>) {
        lemma_sequence_fits(self.steps@, 0, tokens, source, 0);
    }

    fn matches(&self, tokens: &[Token], source: &[char]) -> (len: usize)
        ensures
            len == sequence_from(self.steps@, 0, tokens@, source@, 0),
    {
        let mut cursor: usize = 0;
        let mut i: usize = 0;
        while i < self.steps.len()
            invariant
                i <= self.steps@.len(),
                cursor <= tokens@.len(),
                sequence_from(self.steps@, 0, tokens@, source@, 0) == sequence_from(
                    self.steps@,
                    i as nat,
                    tokens@,
                    source@,
                    cursor as nat,
                ),
            decreases self.steps@.len() - i,
        {
            let rest = slice_subrange(tokens, cursor, tokens.len());
            let n: usize = self.steps[i].matches(rest, source);
            if n == 0 {
                return 0;
            }
            cursor = cursor + n;
            i += 1;
        }
        cursor
    }
}

/// The length of the first alternative, from index `i` on, that matches.
pub open spec fn first_match_from<P: Pattern>(
    alternatives: Seq<P>,
    i: nat,
    tokens: Seq<Token>,
    source: Seq<char>,
) -> nat
    decreases alternatives.len() - i,
{
    if i >= alternatives.len() {
        0
    } else {
        let n = alternatives[i as int].match_len(tokens, source);
        if n != 0 {
            n
        } else {
            first_match_from(alternatives, i + 1, tokens, source)
        }
    }
}

/// Matches whatever its first matching alternative matches.
pub struct EitherPattern<P: Pattern> {
    pub alternatives: Vec<P>,
}

impl<P: Pattern> EitherPattern<P> {
    pub fn new(alternatives: Vec<P>) -> (pattern: Self)
        ensures
            pattern.alternatives@ == alternatives@,
    {
        EitherPattern { alternatives }
    }
}

impl<P: Pattern> Pattern for EitherPattern<P> {
    open spec fn match_len(&self, tokens: Seq<Token>, source: Seq<char>) -> nat {
        first_match_from(self.alternatives@, 0, tokens, source)
    }

    proof fn lemma_match_fits(&self, tokens: Seq<Token>, source: Seq<char>) {
        lemma_first_match_fits(self.alternatives@, 0, tokens, source);
    }

    fn matches(&self, tokens: &[Token], source: &[char]) -> (len: usize)
        ensures
            len == first_match_from(self.alternatives@, 0, tokens@, source@),
    {
        let mut i: usize = 0;
        while i < self.alternatives.len()
            invariant
                i <= self.alternatives@.len(),
                first_match_from(self.alternatives@, 0, tokens@, source@) == first_match_from(
                    self.alternatives@,
                    i as nat,
                    tokens@,
                    source@,
                ),
            decreases self.alternatives@.len() - i,
        {
            let n: usize = self.alternatives[i].matches(tokens, source);
            if n != 0 {
                return n;
            }
            i += 1;
        }
        0
    }
}

impl SequencePattern<EitherPattern<TokenPattern>> {
    /// Appends a step that matches one word token with exactly this text.
    pub fn then_exact_word(self, word: &str) -> (pattern: Self)
        ensures
            pattern.steps@.len() == self.steps@.len() + 1,
            pattern.steps@.subrange(0, self.steps@.len() as int) == self.steps@,
            forall|tokens: Seq<Token>, source: Seq<char>|
                #[trigger] pattern.steps@[self.steps@.len() as int].match_len(tokens, source)
                    == exact_word_len(word@, tokens, source),
    {
        let ghost before = self.steps@;
        let mut alternatives: Vec<TokenPattern> = Vec::new();
        alternatives.push(TokenPattern::Exact(ExactWord::new(word)));
        let step = EitherPattern::new(alternatives);
        assert forall|tokens: Seq<Token>, source: Seq<char>|
            #[trigger] step.match_len(tokens, source) == exact_word_len(word@, tokens, source) by {
            lemma_single_alternative(step, tokens, source);
        }
        let pattern = self.followed_by(step);
        assert(pattern.steps@.subrange(0, before.len() as int) =~= before);
        pattern
    }
}

proof fn lemma_sequence_fits<P: Pattern>(
    steps: Seq<P>,
    i: nat,
    tokens: Seq<Token>,
    source: Seq<char>,
    cursor: nat,
)
    requires
        cursor <= tokens.len(),
    ensures
        sequence_from(steps, i, tokens, source, cursor) <= tokens.len(),
    decreases steps.len() - i,
{
    if i < steps.len() {
        let n = steps[i as int].match_len(rest_of(tokens, cursor), source);
        steps[i as int].lemma_match_fits(rest_of(tokens, cursor), source);
        if n != 0 {
            lemma_sequence_fits(steps, i + 1, tokens, source, cursor + n);
        }
    }
}

proof fn lemma_first_match_fits<P: Pattern>(alternatives: Seq<P>, i: nat, tokens: Seq<Token>, source: Seq<char>)
    ensures
        first_match_from(alternatives, i, tokens, source) <= tokens.len(),
    decreases alternatives.len() - i,
{
    if i < alternatives.len() {
        alternatives[i as int].lemma_match_fits(tokens, source);
        lemma_first_match_fits(alternatives, i + 1, tokens, source);
    }
}

/// A choice of one alternative matches exactly what that alternative does.
pub proof fn lemma_single_alternative<P: Pattern>(
    either: EitherPattern<P>,
    tokens: Seq<Token>,
    source: Seq<char>,
)
    requires
        either.alternatives@.len() == 1,
    ensures
        either.match_len(tokens, source) == either.alternatives@[0].match_len(tokens, source),
{
    reveal_with_fuel(first_match_from, 2);
}

/// The alternative at index `k` decides the match when it matches and no
/// earlier alternative does.
pub proof fn lemma_first_match_wins<P: Pattern>(
    either: EitherPattern<P>,
    k: int,
    tokens: Seq<Token>,
    source: Seq<char>,
)
    requires
        0 <= k < either.alternatives@.len(),
        either.alternatives@[k].match_len(tokens, source) != 0,
        forall|j: int| 0 <= j < k ==> (#[trigger] either.alternatives@[j]).match_len(tokens, source) == 0,
    ensures
        either.match_len(tokens, source) == either.alternatives@[k].match_len(tokens, source),
{
    lemma_first_match_skips(either.alternatives@, 0, k, tokens, source);
}

proof fn lemma_first_match_skips<P: Pattern>(
    alternatives: Seq<P>,
    i: int,
    k: int,
    tokens: Seq<Token>,
    source: Seq<char>,
)
    requires
        0 <= i <= k < alternatives.len(),
        alternatives[k].match_len(tokens, source) != 0,
        forall|j: int| i <= j < k ==> (#[trigger] alternatives[j]).match_len(tokens, source) == 0,
    ensures
        first_match_from(alternatives, i as nat, tokens, source) == alternatives[k].match_len(tokens, source),
    decreases k - i,
{
    if i < k {
        lemma_first_match_skips(alternatives, i + 1, k, tokens, source);
    }
}

/// Of two alternatives that both match, the first decides the length.
pub proof fn lemma_first_alternative_precedes<P: Pattern>(
    either: EitherPattern<P>,
    tokens: Seq<Token>,
    source: Seq<char>,
)
    requires
        either.alternatives@.len() == 2,
        either.alternatives@[0].match_len(tokens, source) != 0,
        either.alternatives@[1].match_len(tokens, source) != 0,
    ensures
        either.match_len(tokens, source) == either.alternatives@[0].match_len(tokens, source),
{
    lemma_first_match_wins(either, 0, tokens, source);
}

/// A choice matches nothing exactly when no alternative matches.
pub proof fn lemma_no_alternative_no_match<P: Pattern>(
    either: EitherPattern<P>,
    tokens: Seq<Token>,
    source: Seq<char>,
)
    ensures
        either.match_len(tokens, source) == 0 <==> forall|j: int|
            0 <= j < either.alternatives@.len() ==> (#[trigger] either.alternatives@[j]).match_len(tokens, source)
                == 0,
{
    lemma_first_match_zero(either.alternatives@, 0, tokens, source);
}

proof fn lemma_first_match_zero<P: Pattern>(alternatives: Seq<P>, i: int, tokens: Seq<Token>, source: Seq<char>)
    requires
        0 <= i <= alternatives.len(),
    ensures
        first_match_from(alternatives, i as nat, tokens, source) == 0 <==> forall|j: int|
            i <= j < alternatives.len() ==> (#[trigger] alternatives[j]).match_len(tokens, source) == 0,
    decreases alternatives.len() - i,
{
    if i < alternatives.len() {
        lemma_first_match_zero(alternatives, i + 1, tokens, source);
    }
}

/// A sequence of steps that each consume at most one token matches, if at
/// all, exactly as many tokens as it has steps.
pub proof fn lemma_unit_steps_match_their_count<P: Pattern>(
    sequence: SequencePattern<P>,
    tokens: Seq<Token>,
    source: Seq<char>,
)
    requires
        forall|j: int, window: Seq<Token>|
            0 <= j < sequence.steps@.len() ==> (#[trigger] sequence.steps@[j].match_len(window, source)) <= 1,
    ensures
        sequence.match_len(tokens, source) == 0 || sequence.match_len(tokens, source) == sequence.steps@.len(),
{
    lemma_unit_steps_from(sequence.steps@, 0, tokens, source, 0);
}

proof fn lemma_unit_steps_from<P: Pattern>(
    steps: Seq<P>,
    i: nat,
    tokens: Seq<Token>,
    source: Seq<char>,
    cursor: nat,
)
    requires
        i <= steps.len(),
        forall|j: int, window: Seq<Token>|
            0 <= j < steps.len() ==> (#[trigger] steps[j].match_len(window, source)) <= 1,
    ensures
        sequence_from(steps, i, tokens, source, cursor) == 0 || sequence_from(steps, i, tokens, source, cursor)
            == cursor + steps.len() - i,
    decreases steps.len() - i,
{
    if i < steps.len() {
        let n = steps[i as int].match_len(rest_of(tokens, cursor), source);
        if n != 0 {
            lemma_unit_steps_from(steps, i + 1, tokens, source, cursor + n);
        }
    }
}

} // verus!
