//! Edit distance between two words.
use vstd::prelude::*;

verus! {

/// The least number of single-character insertions, deletions and
/// substitutions that turn the first `i` characters of `a` into the first
/// `j` characters of `b`.
pub open spec fn prefix_distance(a: Seq<char>, b: Seq<char>, i: nat, j: nat) -> nat
    decreases i + j,
{
    if i == 0 {
        j
    } else if j == 0 {
        i
    } else {
        let substitute = prefix_distance(a, b, (i - 1) as nat, (j - 1) as nat) + if a[i - 1] == b[j - 1] {
            0nat
        } else {
            1nat
        };
        let delete = prefix_distance(a, b, (i - 1) as nat, j) + 1;
        let insert = prefix_distance(a, b, i, (j - 1) as nat) + 1;
        least(substitute, least(delete, insert))
    }
}

/// The smaller of two numbers.
pub open spec fn least(x: nat, y: nat) -> nat {
    if x <= y {
        x
    } else {
        y
    }
}

/// The edit distance between two words.
pub open spec fn edit_distance(a: Seq<char>, b: Seq<char>) -> nat {
    prefix_distance(a, b, a.len(), b.len())
}

/// Distances are counted exactly up to this value.
pub const DISTANCE_CAP: usize = 256;

/// A distance, or the cap where the distance is larger.
pub open spec fn capped(distance: nat) -> nat {
    least(distance, 256)
}

fn cap(n: usize) -> (c: usize)
    ensures
        c == capped(n as nat),
{
    if n < DISTANCE_CAP {
        n
    } else {
        DISTANCE_CAP
    }
}

/// The edit distance between two words, exact where it is below the cap.
pub fn bounded_edit_distance(a: &[char], b: &[char]) -> (distance: usize)
    ensures
        distance == capped(edit_distance(a@, b@)),
{
    let n: usize = a.len();
    let m: usize = b.len();
    let mut row: Vec<usize> = Vec::new();
    let mut j: usize = 0;
    while j < m
        invariant
            j <= m,
            row@.len() == j,
            forall|k: int| 0 <= k < j ==> #[trigger] row@[k] == capped(prefix_distance(a@, b@, 0, (k + 1) as nat)),
        decreases m - j,
    {
        row.push(cap(j + 1));
        j += 1;
    }
    let mut i: usize = 0;
    while i < n
        invariant
            i <= n,
            n == a@.len(),
            m == b@.len(),
            row@.len() == m,
            forall|k: int|
                0 <= k < m ==> #[trigger] row@[k] == capped(prefix_distance(a@, b@, i as nat, (k + 1) as nat)),
        decreases n - i,
    {
        let mut diagonal: usize = cap(i);
        let mut left: usize = cap(i + 1);
        let mut j: usize = 0;
        while j < m
            invariant
                j <= m,
                i < n,
                n == a@.len(),
                m == b@.len(),
                row@.len() == m,
                forall|k: int|
                    j <= k < m ==> #[trigger] row@[k] == capped(
                        prefix_distance(a@, b@, i as nat, (k + 1) as nat),
                    ),
                forall|k: int|
                    0 <= k < j ==> #[trigger] row@[k] == capped(
                        prefix_distance(a@, b@, (i + 1) as nat, (k + 1) as nat),
                    ),
                diagonal == capped(prefix_distance(a@, b@, i as nat, j as nat)),
                left == capped(prefix_distance(a@, b@, (i + 1) as nat, j as nat)),
            decreases m - j,
        {
            let up: usize = row[j];
            let cost: usize = if a[i] == b[j] {
                0
            } else {
                1
            };
            let mut best: usize = diagonal + cost;
            if up + 1 < best {
                best = up + 1;
            }
            if left + 1 < best {
                best = left + 1;
            }
            if best > DISTANCE_CAP {
                best = DISTANCE_CAP;
            }
            row.set(j, best);
            diagonal = up;
            left = best;
            j += 1;
        }
        i += 1;
    }
    if m == 0 {
        cap(n)
    } else {
        row[m - 1]
    }
}

} // verus!
