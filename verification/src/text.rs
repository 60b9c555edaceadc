//! Case-insensitive text matching used by the decoders.
//!
//! Decoding is ASCII-case-insensitive: the names matched here (sport kinds,
//! vendor names, stroke vocabulary) are ASCII, so folding `'A'..'Z'` to
//! `'a'..'z'` and leaving every other character unchanged decides membership.
use vstd::prelude::*;

verus! {

/// ASCII lower-casing of one character: `'A'..'Z'` map to `'a'..'z'`,
/// every other character is unchanged.
pub open spec fn lower_char(c: char) -> char {
    if 'A' <= c && c <= 'Z' {
        ((c as u32) + 32) as char
    } else {
        c
    }
}

/// ASCII lower-casing of a character sequence.
pub open spec fn lower_seq(s: Seq<char>) -> Seq<char> {
    s.map_values(|c: char| lower_char(c))
}

/// `n` occurs as a contiguous subsequence of `h`.
pub open spec fn has_substring(h: Seq<char>, n: Seq<char>) -> bool {
    exists|i: int| 0 <= i && i + n.len() <= h.len() && #[trigger] h.subrange(i, i + n.len()) == n
}

/// `h` contains `n` when `h` is ASCII-lower-cased (`n` is already lower case).
pub open spec fn contains_ci_spec(h: Seq<char>, n: Seq<char>) -> bool {
    has_substring(lower_seq(h), n)
}

/// Whether the ASCII lower-casing of `a` equals `b` (with `b` already lower case).
pub open spec fn ieq_spec(a: Seq<char>, b: Seq<char>) -> bool {
    lower_seq(a) == b
}

/// Relies on std `String::push`: appends exactly the one character.
#[verifier::external_body]
pub fn push_char(s: &mut String, c: char)
    ensures
        final(s)@ == old(s)@.push(c),
{
    s.push(c);
}

fn char_lower_is(a: char, b: char) -> (r: bool)
    ensures
        r == (lower_char(a) == b),
{
    let x = a as u32;
    let y = b as u32;
    if 65 <= x && x <= 90 {
        x + 32 == y
    } else {
        x == y
    }
}

/// The characters of a string, as a vector.
pub fn str_chars(s: &str) -> (r: Vec<char>)
    ensures
        r@ == s@,
{
    let len = s.unicode_len();
    let mut out: Vec<char> = Vec::new();
    let mut i: usize = 0;
    while i < len
        invariant
            i <= len,
            len == s@.len(),
            out@ == s@.take(i as int),
        decreases len - i,
    {
        out.push(s.get_char(i));
        proof {
            assert(s@.take(i + 1) =~= s@.take(i as int).push(s@[i as int]));
        }
        i += 1;
    }
    proof {
        assert(s@.take(len as int) =~= s@);
    }
    out
}

/// Exact equality of two string slices, decided character by character.
pub fn str_eq(a: &str, b: &str) -> (r: bool)
    ensures
        r == (a@ == b@),
{
    let alen = a.unicode_len();
    let blen = b.unicode_len();
    if alen != blen {
        return false;
    }
    let mut i: usize = 0;
    while i < alen
        invariant
            i <= alen,
            alen == a@.len(),
            alen == b@.len(),
            forall|j: int| 0 <= j < i ==> a@[j] == b@[j],
        decreases alen - i,
    {
        if a.get_char(i) != b.get_char(i) {
            return false;
        }
        i += 1;
    }
    proof {
        assert(a@ =~= b@);
    }
    true
}

/// Case-insensitive equality of `a` against an already-lower-case `b`.
pub fn str_ieq(a: &str, b: &str) -> (r: bool)
    ensures
        r == ieq_spec(a@, b@),
{
    let alen = a.unicode_len();
    let blen = b.unicode_len();
    if alen != blen {
        assert(lower_seq(a@).len() == a@.len());
        return false;
    }
    let mut i: usize = 0;
    while i < alen
        invariant
            i <= alen,
            alen == a@.len(),
            alen == b@.len(),
            forall|j: int| 0 <= j < i ==> lower_seq(a@)[j] == b@[j],
        decreases alen - i,
    {
        let ca = a.get_char(i);
        let cb = b.get_char(i);
        if !char_lower_is(ca, cb) {
            assert(lower_seq(a@)[i as int] != b@[i as int]);
            return false;
        }
        assert(lower_seq(a@)[i as int] == b@[i as int]);
        i += 1;
    }
    proof {
        assert(lower_seq(a@) =~= b@);
    }
    true
}

/// Whether the lower case needle `n` occurs in `h` folded to ASCII lower case.
pub fn contains_ci(h: &str, n: &str) -> (r: bool)
    ensures
        r == contains_ci_spec(h@, n@),
{
    let hlen = h.unicode_len();
    let nlen = n.unicode_len();
    if nlen > hlen {
        assert(lower_seq(h@).len() == h@.len());
        return false;
    }
    if nlen == 0 {
        proof {
            assert(lower_seq(h@).subrange(0, 0 + n@.len() as int) =~= n@);
        }
        return true;
    }
    let mut i: usize = 0;
    while i <= hlen - nlen
        invariant
            hlen == h@.len(),
            nlen == n@.len(),
            1 <= nlen <= hlen,
            i <= hlen - nlen + 1,
            forall|k: int|
                0 <= k < i ==> #[trigger] lower_seq(h@).subrange(k, k + n@.len()) != n@,
        decreases hlen - nlen + 1 - i,
    {
        let mut j: usize = 0;
        let mut matches = true;
        while j < nlen && matches
            invariant
                hlen == h@.len(),
                nlen == n@.len(),
                i + nlen <= hlen,
                j <= nlen,
                matches ==> forall|m: int| 0 <= m < j ==> lower_seq(h@)[i + m] == n@[m],
                !matches ==> lower_seq(h@).subrange(i as int, i + n@.len()) != n@,
            decreases nlen - j + (if matches { 1int } else { 0int }),
        {
            let ch = h.get_char(i + j);
            let cn = n.get_char(j);
            if !char_lower_is(ch, cn) {
                matches = false;
                proof {
                    assert(lower_seq(h@)[i + j] != n@[j as int]);
                    assert(lower_seq(h@).subrange(i as int, i + n@.len())[j as int]
                        != n@[j as int]);
                }
            } else {
                assert(lower_seq(h@)[i + j] == n@[j as int]);
                j += 1;
            }
        }
        if matches {
            proof {
                assert forall|m: int| 0 <= m < n@.len() implies
                    #[trigger] lower_seq(h@).subrange(i as int, i + n@.len())[m] == n@[m] by {
                    assert(lower_seq(h@)[i + m] == n@[m]);
                }
                assert(lower_seq(h@).subrange(i as int, i + n@.len()) =~= n@);
            }
            return true;
        }
        i += 1;
    }
    proof {
        assert forall|k: int| 0 <= k && k + n@.len() <= lower_seq(h@).len() implies
            #[trigger] lower_seq(h@).subrange(k, k + n@.len()) != n@ by {
            assert(k < i);
        }
    }
    false
}

} // verus!
