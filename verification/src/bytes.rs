//! Byte-string helpers shared by the matcher layers: containment,
//! equality, prefix and suffix tests, each decided against its
//! sequence-level meaning.

use vstd::prelude::*;

verus! {

/// Decide whether `codes` contains the code `c`.
pub(crate) fn contains_code(codes: &Vec<u8>, c: u8) -> (r: bool)
    ensures
        r == codes@.contains(c),
{
    let mut i: usize = 0;
    while i < codes.len()
        invariant
            0 <= i <= codes.len(),
            forall|k: int| 0 <= k < i ==> codes@[k] != c,
        decreases codes.len() - i,
    {
        if codes[i] == c {
            return true;
        }
        i = i + 1;
    }
    false
}

/// Decide byte-string equality.
pub(crate) fn bytes_eq(a: &Vec<u8>, b: &Vec<u8>) -> (r: bool)
    ensures
        r == (a@ == b@),
{
    if a.len() != b.len() {
        return false;
    }
    let mut i: usize = 0;
    while i < a.len()
        invariant
            0 <= i <= a.len(),
            a.len() == b.len(),
            forall|k: int| 0 <= k < i ==> a@[k] == b@[k],
        decreases a.len() - i,
    {
        if a[i] != b[i] {
            return false;
        }
        i = i + 1;
    }
    proof {
        assert(a@ =~= b@);
    }
    true
}

/// Decide whether `p` is a prefix of `v`.
pub(crate) fn bytes_prefix(p: &Vec<u8>, v: &Vec<u8>) -> (r: bool)
    ensures
        r == p@.is_prefix_of(v@),
{
    if p.len() > v.len() {
        return false;
    }
    let mut i: usize = 0;
    while i < p.len()
        invariant
            0 <= i <= p.len(),
            p.len() <= v.len(),
            forall|k: int| 0 <= k < i ==> p@[k] == v@[k],
        decreases p.len() - i,
    {
        if p[i] != v[i] {
            return false;
        }
        i = i + 1;
    }
    proof {
        assert(p@ =~= v@.subrange(0, p@.len() as int));
    }
    true
}

/// Decide whether `p` is a suffix of `v`.
pub(crate) fn bytes_suffix(p: &Vec<u8>, v: &Vec<u8>) -> (r: bool)
    ensures
        r == p@.is_suffix_of(v@),
{
    if p.len() > v.len() {
        return false;
    }
    let off: usize = v.len() - p.len();
    let mut i: usize = 0;
    while i < p.len()
        invariant
            0 <= i <= p.len(),
            p.len() <= v.len(),
            off == v.len() - p.len(),
            forall|k: int| 0 <= k < i ==> p@[k] == v@[off + k],
        decreases p.len() - i,
    {
        if p[i] != v[off + i] {
            return false;
        }
        i = i + 1;
    }
    proof {
        assert(p@ =~= v@.subrange(v@.len() - p@.len(), v@.len() as int));
    }
    true
}


} // verus!
