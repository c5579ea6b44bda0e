//! Normalized string similarity for the `=*` operator: the Levenshtein
//! edit distance, normalized against the longer operand.  A score of
//! `1 - d/max(|a|,|b|)` is compared against a threshold in thousandths
//! without leaving integer arithmetic.

use vstd::prelude::*;

verus! {

/// The Levenshtein edit distance between two byte strings: the least
/// number of insertions, deletions and substitutions turning one into
/// the other.
pub open spec fn edit_distance(a: Seq<u8>, b: Seq<u8>) -> nat
    decreases a.len() + b.len(),
{
    if a.len() == 0 {
        b.len()
    } else if b.len() == 0 {
        a.len()
    } else if a.last() == b.last() {
        edit_distance(a.drop_last(), b.drop_last())
    } else {
        let d1 = edit_distance(a.drop_last(), b);
        let d2 = edit_distance(a, b.drop_last());
        let d3 = edit_distance(a.drop_last(), b.drop_last());
        1 + (if d1 <= d2 && d1 <= d3 {
            d1
        } else if d2 <= d3 {
            d2
        } else {
            d3
        })
    }
}

/// The edit distance never exceeds the longer operand.
pub proof fn lemma_edit_distance_le_max(a: Seq<u8>, b: Seq<u8>)
    ensures
        edit_distance(a, b) <= (if a.len() >= b.len() {
            a.len()
        } else {
            b.len()
        }),
    decreases a.len() + b.len(),
{
    if a.len() == 0 || b.len() == 0 {
    } else {
        lemma_edit_distance_le_max(a.drop_last(), b.drop_last());
        lemma_edit_distance_le_max(a.drop_last(), b);
        lemma_edit_distance_le_max(a, b.drop_last());
    }
}

/// Whether the normalized similarity of `a` and `b` reaches `threshold`
/// thousandths: `(max - d) / max >= threshold / 1000` as a closed bound,
/// stated without division.  Two empty strings are fully similar.
pub open spec fn spec_similar(a: Seq<u8>, b: Seq<u8>, threshold: u32) -> bool {
    let m = if a.len() >= b.len() {
        a.len()
    } else {
        b.len()
    };
    (m - edit_distance(a, b)) * 1000 >= threshold * m
}

/// Compute the Levenshtein edit distance of two byte strings by dynamic
/// programming over prefix pairs.
pub fn edit_distance_of(a: &Vec<u8>, b: &Vec<u8>) -> (r: usize)
    ensures
        r == edit_distance(a@, b@),
{
    let la = a.len();
    let lb = b.len();
    if lb == 0 {
        proof {
            assert(a@.len() == 0 ==> edit_distance(a@, b@) == b@.len());
        }
        return la;
    }
    if la == 0 {
        return lb;
    }
    // prev[j - 1] holds the distance of a's first i-1 bytes and b's
    // first j bytes; the j = 0 column is implicit (its value is the row
    // index) so no table of lb + 1 entries is ever allocated.
    let mut prev: Vec<usize> = Vec::new();
    let mut j0: usize = 0;
    while j0 < lb
        invariant
            0 <= j0 <= lb,
            lb == b@.len(),
            prev@.len() == j0,
            forall|k: int| 1 <= k <= j0 ==> #[trigger] prev@[k - 1] == edit_distance(
                a@.take(0),
                b@.take(k),
            ),
        decreases lb - j0,
    {
        let j: usize = j0 + 1;
        proof {
            assert(edit_distance(a@.take(0), b@.take(j as int)) == b@.take(j as int).len());
        }
        prev.push(j);
        j0 = j;
    }
    let mut i0: usize = 0;
    while i0 < la
        invariant
            0 <= i0 <= la,
            la == a@.len(),
            lb == b@.len(),
            lb >= 1,
            prev@.len() == lb,
            forall|k: int| 1 <= k <= lb ==> #[trigger] prev@[k - 1] == edit_distance(
                a@.take(i0 as int),
                b@.take(k),
            ),
        decreases la - i0,
    {
        let i: usize = i0 + 1;
        let mut cur: Vec<usize> = Vec::new();
        let mut j0: usize = 0;
        while j0 < lb
            invariant
                i == i0 + 1,
                0 <= i0 < la,
                0 <= j0 <= lb,
                la == a@.len(),
                lb == b@.len(),
                prev@.len() == lb,
                forall|k: int| 1 <= k <= lb ==> #[trigger] prev@[k - 1] == edit_distance(
                    a@.take(i - 1),
                    b@.take(k),
                ),
                cur@.len() == j0,
                forall|k: int| 1 <= k <= j0 ==> #[trigger] cur@[k - 1] == edit_distance(
                    a@.take(i as int),
                    b@.take(k),
                ),
            decreases lb - j0,
        {
            let j: usize = j0 + 1;
            let above: usize = prev[j - 1];
            let diag: usize = if j == 1 {
                i - 1
            } else {
                prev[j - 2]
            };
            let left: usize = if j == 1 {
                i
            } else {
                cur[j - 2]
            };
            proof {
                assert(a@.take(i as int).len() == i);
                assert(b@.take(j as int).len() == j);
                assert(a@.take(i as int).last() == a@[i - 1]);
                assert(b@.take(j as int).last() == b@[j - 1]);
                assert(a@.take(i as int).drop_last() =~= a@.take(i - 1));
                assert(b@.take(j as int).drop_last() =~= b@.take(j - 1));
                assert(edit_distance(a@.take(i - 1), b@.take(0)) == i - 1);
                assert(edit_distance(a@.take(i as int), b@.take(0)) == i);
                lemma_edit_distance_le_max(a@.take(i - 1), b@.take(j - 1));
            }
            let cell: usize = if a[i - 1] == b[j - 1] {
                diag
            } else {
                let m = if above <= left && above <= diag {
                    above
                } else if left <= diag {
                    left
                } else {
                    diag
                };
                m + 1
            };
            proof {
                assert(cell == edit_distance(a@.take(i as int), b@.take(j as int)));
            }
            cur.push(cell);
            j0 = j;
        }
        prev = cur;
        i0 = i;
    }
    proof {
        assert(a@.take(la as int) =~= a@);
        assert(b@.take(lb as int) =~= b@);
    }
    prev[lb - 1]
}

/// Decide whether the normalized similarity of `a` and `b` reaches
/// `threshold` thousandths.
pub fn similar(a: &Vec<u8>, b: &Vec<u8>, threshold: u32) -> (r: bool)
    ensures
        r == spec_similar(a@, b@, threshold),
{
    let d = edit_distance_of(a, b);
    let m = if a.len() >= b.len() {
        a.len()
    } else {
        b.len()
    };
    proof {
        lemma_edit_distance_le_max(a@, b@);
        vstd::arithmetic::mul::lemma_mul_upper_bound(
            threshold as int,
            u32::MAX as int,
            m as int,
            usize::MAX as int,
        );
        vstd::arithmetic::mul::lemma_mul_upper_bound(
            (m - d) as int,
            usize::MAX as int,
            1000,
            1000,
        );
    }
    ((m - d) as u128) * 1000 >= (threshold as u128) * (m as u128)
}

} // verus!
