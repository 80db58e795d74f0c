//! Verified character-level string helpers: equality and substring search,
//! with contracts over the `Seq<char>` views.

use vstd::prelude::*;
use vstd::string::StrSliceExecFns;

verus! {

/// Whether `n` occurs contiguously somewhere in `h` (every string contains
/// the empty string).
pub open spec fn contains_spec(h: Seq<char>, n: Seq<char>) -> bool {
    exists|k: int| 0 <= k && k + n.len() <= h.len() && #[trigger] h.subrange(k, k + n.len()) == n
}

/// Character-by-character string equality.
pub fn str_eq(a: &str, b: &str) -> (r: bool)
    ensures
        r == (a@ == b@),
{
    let alen = a.unicode_len();
    let blen = b.unicode_len();
    if alen != blen {
        return false;
    }
    let mut i: usize = 0;
    while i < alen
        invariant
            i <= alen,
            alen == a@.len(),
            alen == b@.len(),
            forall|j: int| 0 <= j < i ==> a@[j] == b@[j],
        decreases alen - i,
    {
        if a.get_char(i) != b.get_char(i) {
            return false;
        }
        i += 1;
    }
    proof {
        assert(a@ =~= b@);
    }
    true
}

/// Whether `n` matches `h` at offset `k`.
fn match_at(h: &str, n: &str, k: usize) -> (r: bool)
    requires
        k + n@.len() <= h@.len(),
        h@.len() <= usize::MAX,
    ensures
        r == (h@.subrange(k as int, k as int + n@.len() as int) == n@),
{
    let nlen = n.unicode_len();
    let mut j: usize = 0;
    while j < nlen
        invariant
            j <= nlen,
            nlen == n@.len(),
            k + nlen <= h@.len(),
            h@.len() <= usize::MAX,
            forall|t: int| 0 <= t < j ==> h@[k + t] == n@[t],
        decreases nlen - j,
    {
        if h.get_char(k + j) != n.get_char(j) {
            proof {
                assert(h@.subrange(k as int, k as int + n@.len() as int)[j as int] == h@[k + j]);
            }
            return false;
        }
        j += 1;
    }
    proof {
        assert(h@.subrange(k as int, k as int + n@.len() as int) =~= n@);
    }
    true
}

/// Substring search over the character views.
pub fn str_contains(h: &str, n: &str) -> (r: bool)
    ensures
        r == contains_spec(h@, n@),
{
    let hlen = h.unicode_len();
    let nlen = n.unicode_len();
    if nlen > hlen {
        return false;
    }
    if nlen == 0 {
        proof {
            assert(h@.subrange(0, 0 + n@.len() as int) =~= n@);
        }
        return true;
    }
    let mut k: usize = 0;
    while k <= hlen - nlen
        invariant
            hlen == h@.len(),
            nlen == n@.len(),
            1 <= nlen <= hlen,
            k <= hlen - nlen + 1,
            forall|k2: int| 0 <= k2 < k ==> #[trigger] h@.subrange(k2, k2 + n@.len()) != n@,
        decreases hlen - nlen - k + 1,
    {
        if match_at(h, n, k) {
            assert(h@.subrange(k as int, k as int + n@.len()) == n@);
            return true;
        }
        k += 1;
    }
    false
}

} // verus!
