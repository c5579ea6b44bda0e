//! ASCII case folding.  Comparisons of the expression language fold the
//! letters `A`..`Z` to lower case when the `case_ignore` option is set;
//! all other bytes pass through unchanged.

use vstd::prelude::*;

verus! {

/// One byte after case folding: upper-case ASCII letters map to their
/// lower-case counterpart when `ci` is set.
pub open spec fn fold_byte(b: u8, ci: bool) -> u8 {
    if ci && 65 <= b <= 90 {
        (b + 32) as u8
    } else {
        b
    }
}

/// A byte string after case folding.
pub open spec fn fold_bytes(s: Seq<u8>, ci: bool) -> Seq<u8> {
    s.map_values(|b: u8| fold_byte(b, ci))
}

/// Fold a byte string according to the case-folding flag.
pub fn fold_vec(v: &Vec<u8>, ci: bool) -> (r: Vec<u8>)
    ensures
        r@ == fold_bytes(v@, ci),
{
    let mut r: Vec<u8> = Vec::new();
    let mut i: usize = 0;
    while i < v.len()
        invariant
            0 <= i <= v.len(),
            r@ == fold_bytes(v@.take(i as int), ci),
        decreases v.len() - i,
    {
        let b = v[i];
        let f = if ci && 65 <= b && b <= 90 {
            b + 32
        } else {
            b
        };
        r.push(f);
        proof {
            assert(fold_bytes(v@.take(i as int), ci).push(fold_byte(v@[i as int], ci))
                =~= fold_bytes(v@.take(i + 1), ci));
        }
        i = i + 1;
    }
    proof {
        assert(v@.take(v@.len() as int) =~= v@);
    }
    r
}

} // verus!
