use vstd::prelude::*;
use crate::text::{occurs_at, spec_find, lemma_spec_find_characterization, lemma_spec_find_is_first};

verus! {

/// The characters that a byte sequence yields when read as UTF-8 with
/// every ill-formed sequence replaced, as `String::from_utf8_lossy`
/// reads it: a function of the bytes alone.
pub uninterp spec fn lossy_of(bytes: Seq<u8>) -> Seq<char>;

/// Relies on String::from_utf8_lossy: bytes that are valid UTF-8 decode
/// to exactly their own characters; any other input is read with
/// ill-formed sequences replaced, still a function of the bytes alone.
#[verifier::external_body]
pub(crate) fn utf8_lossy(bytes: &[u8]) -> (r: String)
    ensures
        r@ == lossy_of(bytes@),
        vstd::utf8::valid_utf8(bytes@) ==> r@ == vstd::utf8::decode_utf8(bytes@),
{
    String::from_utf8_lossy(bytes).into_owned()
}

/// Compares the fragment of `s` that starts at `i` with `p`.
pub fn bytes_matches_at(s: &[u8], p: &[u8], i: usize, s_len: usize, p_len: usize) -> (r: bool)
    requires
        s_len == s@.len(),
        p_len == p@.len(),
        i + p_len <= s_len,
    ensures
        r == occurs_at(s@, p@, i as int),
{
    let mut j: usize = 0;
    while j < p_len
        invariant
            j <= p_len,
            s_len == s@.len(),
            p_len == p@.len(),
            i + p_len <= s_len,
            forall|k: int| 0 <= k < j ==> s@[i + k] == p@[k],
        decreases p_len - j,
    {
        if s[i + j] != p[j] {
            assert(s@.subrange(i as int, i + p@.len()) != p@) by {
                assert(s@.subrange(i as int, i + p@.len())[j as int] == s@[i + j]);
            }
            return false;
        }
        j += 1;
    }
    assert(s@.subrange(i as int, i + p@.len()) =~= p@);
    true
}

/// First occurrence of `p` in `s` at or after `start`, as an index into `s`.
pub fn bytes_find_from(s: &[u8], p: &[u8], start: usize) -> (r: Option<usize>)
    requires
        start <= s@.len(),
        p@.len() >= 1,
    ensures
        match r {
            Some(j) => start <= j && spec_find(s@.skip(start as int), p@) == Some(j - start),
            None => spec_find(s@.skip(start as int), p@) is None,
        },
{
    let s_len = s.len();
    let p_len = p.len();
    let ghost suf = s@.skip(start as int);
    if p_len > s_len - start {
        proof {
            lemma_spec_find_characterization(suf, p@);
            if spec_find(suf, p@) is Some {
                let j = spec_find(suf, p@)->Some_0;
                assert(occurs_at(suf, p@, j));
            }
        }
        return None;
    }
    let mut i: usize = start;
    while i <= s_len - p_len
        invariant
            start <= i <= s_len,
            1 <= p_len <= s_len,
            s_len == s@.len(),
            p_len == p@.len(),
            suf == s@.skip(start as int),
            forall|k: int| 0 <= k < i - start ==> !occurs_at(suf, p@, k),
        decreases s_len - i,
    {
        if bytes_matches_at(s, p, i, s_len, p_len) {
            proof {
                assert(s@.subrange(i as int, i + p@.len()) =~= suf.subrange(
                    i - start,
                    i - start + p@.len(),
                ));
                assert(occurs_at(suf, p@, i - start));
                lemma_spec_find_is_first(suf, p@, i - start);
            }
            return Some(i);
        }
        proof {
            assert(s@.subrange(i as int, i + p@.len()) =~= suf.subrange(
                i - start,
                i - start + p@.len(),
            ));
            assert(!occurs_at(suf, p@, i - start));
        }
        i += 1;
    }
    proof {
        lemma_spec_find_characterization(suf, p@);
        if spec_find(suf, p@) is Some {
            let j = spec_find(suf, p@)->Some_0;
            assert(occurs_at(suf, p@, j));
            assert(!occurs_at(suf, p@, j));
        }
    }
    None
}

/// Equality of two byte slices.
pub fn bytes_eq(a: &[u8], b: &[u8]) -> (r: bool)
    ensures
        r == (a@ == b@),
{
    let a_len = a.len();
    let b_len = b.len();
    if a_len != b_len {
        return false;
    }
    if a_len == 0 {
        assert(a@ =~= b@);
        return true;
    }
    let r = bytes_matches_at(a, b, 0, a_len, b_len);
    proof {
        assert(a@.subrange(0, b@.len() as int) =~= a@);
    }
    r
}

} // verus!
