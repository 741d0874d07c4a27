//! Byte-string matching primitives: suffix and substring tests over `Vec<u8>`,
//! specified over `Seq<u8>`.

use vstd::prelude::*;

verus! {

/// True when `pat` occurs in `s` starting at index `i`.
pub open spec fn matches_at(s: Seq<u8>, pat: Seq<u8>, i: int) -> bool {
    &&& 0 <= i
    &&& i + pat.len() <= s.len()
    &&& forall|k: int| 0 <= k < pat.len() ==> s[i + k] == pat[k]
}

/// True when `s` ends with the byte pattern `suffix`.
pub open spec fn seq_ends_with(s: Seq<u8>, suffix: Seq<u8>) -> bool {
    matches_at(s, suffix, s.len() - suffix.len())
}

/// True when `pat` occurs somewhere in `s`.
pub open spec fn seq_contains(s: Seq<u8>, pat: Seq<u8>) -> bool {
    exists|i: int| #[trigger] matches_at(s, pat, i)
}

/// Compares two byte strings for equality.
pub fn bytes_eq(a: &Vec<u8>, b: &Vec<u8>) -> (r: bool)
    ensures
        r == (a@ == b@),
{
    if a.len() != b.len() {
        return false;
    }
    for i in 0..a.len()
        invariant
            a.len() == b.len(),
            forall|k: int| 0 <= k < i ==> a@[k] == b@[k],
    {
        if a[i] != b[i] {
            assert(a@[i as int] != b@[i as int]);
            return false;
        }
    }
    proof {
        assert(a@ =~= b@);
    }
    true
}

/// Tests whether `pat` occurs in `s` at offset `off`.
fn match_at(s: &Vec<u8>, pat: &Vec<u8>, off: usize) -> (r: bool)
    requires
        off + pat@.len() <= s@.len(),
    ensures
        r == matches_at(s@, pat@, off as int),
{
    let slen: usize = s.len();
    let mut k: usize = 0;
    while k < pat.len()
        invariant
            off + pat@.len() <= s@.len(),
            s@.len() == slen,
            k <= pat@.len(),
            forall|j: int| 0 <= j < k ==> s@[off + j] == pat@[j],
        decreases pat@.len() - k,
    {
        if s[off + k] != pat[k] {
            assert(s@[off + k] != pat@[k as int]);
            return false;
        }
        k = k + 1;
    }
    true
}

/// Tests whether `s` ends with the byte pattern `suffix`.
pub fn ends_with(s: &Vec<u8>, suffix: &Vec<u8>) -> (r: bool)
    ensures
        r == seq_ends_with(s@, suffix@),
{
    if suffix.len() > s.len() {
        return false;
    }
    match_at(s, suffix, s.len() - suffix.len())
}

/// Tests whether `pat` occurs somewhere in `s`.
pub fn contains_seq(s: &Vec<u8>, pat: &Vec<u8>) -> (r: bool)
    ensures
        r == seq_contains(s@, pat@),
{
    if pat.len() > s.len() {
        assert(forall|i: int| !matches_at(s@, pat@, i));
        return false;
    }
    if pat.len() == 0 {
        assert(matches_at(s@, pat@, 0));
        return true;
    }
    let last: usize = s.len() - pat.len();
    let mut i: usize = 0;
    while i <= last
        invariant
            1 <= pat@.len() <= s@.len(),
            s@.len() <= usize::MAX,
            last == s@.len() - pat@.len(),
            i <= last + 1,
            forall|j: int| 0 <= j < i ==> !matches_at(s@, pat@, j),
        decreases last + 1 - i,
    {
        if match_at(s, pat, i) {
            assert(matches_at(s@, pat@, i as int));
            return true;
        }
        i = i + 1;
    }
    assert(forall|j: int| !matches_at(s@, pat@, j));
    false
}

/// Copies a byte string.
pub fn clone_bytes(v: &Vec<u8>) -> (r: Vec<u8>)
    ensures
        r@ == v@,
{
    let mut r: Vec<u8> = Vec::new();
    for i in 0..v.len()
        invariant
            r@ =~= v@.take(i as int),
    {
        r.push(v[i]);
        proof {
            assert(r@ =~= v@.take(i + 1));
        }
    }
    proof {
        assert(v@.take(v@.len() as int) =~= v@);
    }
    r
}

} // verus!
