//! Sliding a pattern over a list of tokens.
use vstd::prelude::*;
use vstd::slice::slice_subrange;
use crate::patterns::composite::rest_of;
use crate::patterns::Pattern;
use crate::token::Token;

verus! {

/// The matches that start at one of the first `n` positions of the list,
/// each as its start and its length, in the order of their starts.
pub open spec fn matches_before<P: Pattern>(pattern: P, tokens: Seq<Token>, source: Seq<char>, n: nat) -> Seq<
    (usize, usize),
>
    decreases n,
{
    if n == 0 {
        Seq::empty()
    } else {
        let earlier = matches_before(pattern, tokens, source, (n - 1) as nat);
        let len = pattern.match_len(rest_of(tokens, (n - 1) as nat), source);
        if len != 0 {
            earlier.push(((n - 1) as usize, len as usize))
        } else {
            earlier
        }
    }
}

/// Tries the pattern at every position of the list and reports each match
/// by its start and its length. Matches may overlap.
pub fn find_matches<P: Pattern>(pattern: &P, tokens: &[Token], source: &[char]) -> (found: Vec<(usize, usize)>)
    ensures
        found@ == matches_before(*pattern, tokens@, source@, tokens@.len() as nat),
        forall|k: int|
            0 <= k < found@.len() ==> 0 < (#[trigger] found@[k]).1 && found@[k].0 + found@[k].1 <= tokens@.len(),
{
    let mut found: Vec<(usize, usize)> = Vec::new();
    let mut start: usize = 0;
    while start < tokens.len()
        invariant
            start <= tokens@.len(),
            found@ == matches_before(*pattern, tokens@, source@, start as nat),
            forall|k: int|
                0 <= k < found@.len() ==> 0 < (#[trigger] found@[k]).1 && found@[k].0 + found@[k].1
                    <= tokens@.len(),
        decreases tokens@.len() - start,
    {
        let len: usize = pattern.matches(slice_subrange(tokens, start, tokens.len()), source);
        if len != 0 {
            found.push((start, len));
        }
        start += 1;
    }
    found
}

} // verus!
