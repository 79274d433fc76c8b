//! Verified helpers on strings: equality, prefix tests, and substring
//! search, stated over the character sequences the strings denote.

use vstd::prelude::*;

verus! {

broadcast use vstd::std_specs::vec::group_vec_axioms, vstd::seq::group_seq_axioms;

/// Whether `p` stands at the front of `s`.
pub open spec fn is_prefix_of(p: Seq<char>, s: Seq<char>) -> bool {
    p.len() <= s.len() && s.subrange(0, p.len() as int) == p
}

/// Whether `n` occurs anywhere inside `h`.
pub open spec fn contains_seq(h: Seq<char>, n: Seq<char>) -> bool {
    exists|off: int|
        0 <= off && off + n.len() <= h.len() && #[trigger] h.subrange(off, off + n.len() as int)
            == n
}

/// Reports whether two strings hold the same characters.
pub fn str_eq(a: &str, b: &str) -> (r: bool)
    ensures
        r == (a@ == b@),
{
    let alen = a.unicode_len();
    let blen = b.unicode_len();
    if alen != blen {
        return false;
    }
    let mut j: usize = 0;
    while j < alen
        invariant
            0 <= j <= alen,
            alen == a@.len(),
            alen == b@.len(),
            forall|i: int| 0 <= i < j ==> a@[i] == b@[i],
        decreases alen - j,
    {
        let ca = a.get_char(j);
        let cb = b.get_char(j);
        if ca != cb {
            proof {
                assert(a@[j as int] != b@[j as int]);
            }
            return false;
        }
        j += 1;
    }
    proof {
        assert(a@ =~= b@);
    }
    true
}

/// Reports whether `p` stands at the front of `s`.
pub fn str_starts_with(s: &str, p: &str) -> (r: bool)
    ensures
        r == is_prefix_of(p@, s@),
{
    let plen = p.unicode_len();
    let slen = s.unicode_len();
    if plen > slen {
        return false;
    }
    let mut j: usize = 0;
    while j < plen
        invariant
            0 <= j <= plen <= slen,
            plen == p@.len(),
            slen == s@.len(),
            forall|i: int| 0 <= i < j ==> s@[i] == p@[i],
        decreases plen - j,
    {
        let cs = s.get_char(j);
        let cp = p.get_char(j);
        if cs != cp {
            proof {
                assert(s@.subrange(0, plen as int)[j as int] != p@[j as int]);
            }
            return false;
        }
        j += 1;
    }
    proof {
        assert(s@.subrange(0, plen as int) =~= p@);
    }
    true
}

/// Reports whether `h` matches `n` at offset `off`.
fn match_at(h: &str, n: &str, off: usize, hlen: usize) -> (r: bool)
    requires
        hlen as int == h@.len(),
        off + n@.len() <= h@.len(),
    ensures
        r == (h@.subrange(off as int, off + n@.len() as int) == n@),
{
    let nlen = n.unicode_len();
    let mut j: usize = 0;
    while j < nlen
        invariant
            0 <= j <= nlen,
            nlen == n@.len(),
            hlen as int == h@.len(),
            off + nlen <= hlen,
            forall|i: int| 0 <= i < j ==> h@[off + i] == n@[i],
        decreases nlen - j,
    {
        let ch = h.get_char(off + j);
        let cn = n.get_char(j);
        if ch != cn {
            proof {
                assert(h@.subrange(off as int, off + n@.len() as int)[j as int] != n@[j as int]);
            }
            return false;
        }
        j += 1;
    }
    proof {
        assert(h@.subrange(off as int, off + n@.len() as int) =~= n@);
    }
    true
}

/// Reports whether `n` occurs anywhere inside `h`.
pub fn str_contains(h: &str, n: &str) -> (r: bool)
    ensures
        r == contains_seq(h@, n@),
{
    let hlen = h.unicode_len();
    let nlen = n.unicode_len();
    if nlen > hlen {
        proof {
            assert(!contains_seq(h@, n@));
        }
        return false;
    }
    if nlen == 0 {
        proof {
            assert(h@.subrange(0, 0 + n@.len() as int) =~= n@);
            assert(contains_seq(h@, n@));
        }
        return true;
    }
    let mut off: usize = 0;
    while off <= hlen - nlen
        invariant
            0 <= off <= hlen - nlen + 1,
            hlen == h@.len(),
            nlen == n@.len(),
            1 <= nlen <= hlen,
            forall|o: int|
                0 <= o < off ==> #[trigger] h@.subrange(o, o + n@.len() as int) != n@,
        decreases hlen - off,
    {
        if match_at(h, n, off, hlen) {
            return true;
        }
        off += 1;
    }
    proof {
        assert forall|o: int| 0 <= o && o + n@.len() <= h@.len() implies #[trigger] h@.subrange(
            o,
            o + n@.len() as int,
        ) != n@ by {
            assert(o < off);
        }
    }
    false
}

} // verus!
