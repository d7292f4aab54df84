use vstd::prelude::*;
use vstd::string::StrSliceExecFns;
use vstd::string::StringExecFns;

verus! {

/// True when `p` occurs inside `s` starting at index `i`.
pub open spec fn occurs_at<T>(s: Seq<T>, p: Seq<T>, i: int) -> bool {
    0 <= i && i + p.len() <= s.len() && s.subrange(i, i + p.len()) == p
}

/// True when `p` occurs somewhere inside `s`.
pub open spec fn contains_seq<T>(s: Seq<T>, p: Seq<T>) -> bool {
    exists|i: int| occurs_at(s, p, i)
}

/// Index of the first occurrence of `p` inside `s`, by a left-to-right scan.
pub open spec fn spec_find<T>(s: Seq<T>, p: Seq<T>) -> Option<int>
    decreases s.len(),
{
    if p.len() > s.len() {
        None
    } else if s.subrange(0, p.len() as int) == p {
        Some(0)
    } else if s.len() == 0 {
        None
    } else {
        match spec_find(s.skip(1), p) {
            Some(j) => Some(j + 1),
            None => None,
        }
    }
}

/// Shifting the start of the scan by one shifts every occurrence by one.
proof fn lemma_occurs_at_skip<T>(s: Seq<T>, p: Seq<T>, i: int)
    requires
        s.len() > 0,
        0 <= i,
    ensures
        occurs_at(s.skip(1), p, i) <==> occurs_at(s, p, i + 1),
{
    if i + 1 + p.len() <= s.len() {
        assert(s.skip(1).subrange(i, i + p.len() as int) =~= s.subrange(i + 1, i + 1 + p.len()));
    }
}

/// `spec_find` returns the first occurrence: a hit is an occurrence with
/// no occurrence before it, and a miss means no occurrence at all.
pub proof fn lemma_spec_find_characterization<T>(s: Seq<T>, p: Seq<T>)
    ensures
        match spec_find(s, p) {
            Some(j) => occurs_at(s, p, j) && forall|k: int| 0 <= k < j ==> !occurs_at(s, p, k),
            None => forall|k: int| !occurs_at(s, p, k),
        },
    decreases s.len(),
{
    if p.len() > s.len() {
        assert(forall|k: int| !occurs_at(s, p, k));
    } else if s.subrange(0, p.len() as int) == p {
        assert(occurs_at(s, p, 0));
    } else if s.len() == 0 {
        assert(forall|k: int| !occurs_at(s, p, k));
    } else {
        lemma_spec_find_characterization(s.skip(1), p);
        match spec_find(s.skip(1), p) {
            Some(j) => {
                lemma_occurs_at_skip(s, p, j);
                assert(occurs_at(s, p, j + 1));
                assert forall|k: int| 0 <= k < j + 1 implies !occurs_at(s, p, k) by {
                    if k == 0 {
                        assert(s.subrange(0, p.len() as int) != p);
                    } else {
                        lemma_occurs_at_skip(s, p, k - 1);
                    }
                }
            },
            None => {
                assert forall|k: int| !occurs_at(s, p, k) by {
                    if k == 0 {
                        assert(s.subrange(0, p.len() as int) != p);
                    } else if k > 0 {
                        lemma_occurs_at_skip(s, p, k - 1);
                    }
                }
            },
        }
    }
}

/// An occurrence with none before it is exactly what `spec_find` returns.
pub proof fn lemma_spec_find_is_first<T>(s: Seq<T>, p: Seq<T>, i: int)
    requires
        occurs_at(s, p, i),
        forall|k: int| 0 <= k < i ==> !occurs_at(s, p, k),
    ensures
        spec_find(s, p) == Some(i),
{
    lemma_spec_find_characterization(s, p);
    match spec_find(s, p) {
        Some(j) => {
            if j < i {
                assert(!occurs_at(s, p, j));
            }
            if i < j {
                assert(!occurs_at(s, p, i));
            }
        },
        None => {
            assert(!occurs_at(s, p, i));
        },
    }
}

/// Compares the fragment of `s` that starts at `i` with `p`.
pub fn str_matches_at(s: &str, p: &str, i: usize, s_len: usize, p_len: usize) -> (r: bool)
    requires
        s_len == s@.len(),
        p_len == p@.len(),
        i + p_len <= s_len,
    ensures
        r == occurs_at(s@, p@, i as int),
{
    let mut j: usize = 0;
    while j < p_len
        invariant
            j <= p_len,
            s_len == s@.len(),
            p_len == p@.len(),
            i + p_len <= s_len,
            forall|k: int| 0 <= k < j ==> s@[i + k] == p@[k],
        decreases p_len - j,
    {
        if s.get_char(i + j) != p.get_char(j) {
            assert(s@.subrange(i as int, i + p@.len()) != p@) by {
                assert(s@.subrange(i as int, i + p@.len())[j as int] == s@[i + j]);
            }
            return false;
        }
        j += 1;
    }
    assert(s@.subrange(i as int, i + p@.len()) =~= p@);
    true
}

/// First occurrence of `p` in `s` at or after `start`, as an index into `s`.
pub fn str_find_from(s: &str, p: &str, start: usize) -> (r: Option<usize>)
    requires
        start <= s@.len(),
        p@.len() >= 1,
    ensures
        match r {
            Some(j) => start <= j && spec_find(s@.skip(start as int), p@) == Some(j - start),
            None => spec_find(s@.skip(start as int), p@) is None,
        },
{
    let s_len = s.unicode_len();
    let p_len = p.unicode_len();
    let ghost suf = s@.skip(start as int);
    if p_len > s_len - start {
        proof {
            lemma_spec_find_characterization(suf, p@);
            if spec_find(suf, p@) is Some {
                let j = spec_find(suf, p@)->Some_0;
                assert(occurs_at(suf, p@, j));
            }
        }
        return None;
    }
    let mut i: usize = start;
    while i <= s_len - p_len
        invariant
            start <= i <= s_len,
            1 <= p_len <= s_len,
            s_len == s@.len(),
            p_len == p@.len(),
            suf == s@.skip(start as int),
            forall|k: int| 0 <= k < i - start ==> !occurs_at(suf, p@, k),
        decreases s_len - i,
    {
        if str_matches_at(s, p, i, s_len, p_len) {
            proof {
                assert(s@.subrange(i as int, i + p@.len()) =~= suf.subrange(
                    i - start,
                    i - start + p@.len(),
                ));
                assert(occurs_at(suf, p@, i - start));
                lemma_spec_find_is_first(suf, p@, i - start);
            }
            return Some(i);
        }
        proof {
            assert(s@.subrange(i as int, i + p@.len()) =~= suf.subrange(
                i - start,
                i - start + p@.len(),
            ));
            assert(!occurs_at(suf, p@, i - start));
        }
        i += 1;
    }
    proof {
        lemma_spec_find_characterization(suf, p@);
        if spec_find(suf, p@) is Some {
            let j = spec_find(suf, p@)->Some_0;
            assert(occurs_at(suf, p@, j));
            assert(j + p@.len() <= suf.len());
            assert(!occurs_at(suf, p@, j));
        }
    }
    None
}

/// Equality of two string slices, decided character by character.
pub fn str_eq(a: &str, b: &str) -> (r: bool)
    ensures
        r == (a@ == b@),
{
    let a_len = a.unicode_len();
    let b_len = b.unicode_len();
    if a_len != b_len {
        return false;
    }
    if a_len == 0 {
        assert(a@ =~= b@);
        return true;
    }
    let r = str_matches_at(a, b, 0, a_len, b_len);
    proof {
        assert(a@.subrange(0, b@.len() as int) =~= a@);
    }
    r
}

/// True when `p` is a prefix of `s`.
pub open spec fn is_prefix_of(s: Seq<char>, p: Seq<char>) -> bool {
    p.len() <= s.len() && s.subrange(0, p.len() as int) == p
}

pub fn str_starts_with(s: &str, p: &str) -> (r: bool)
    ensures
        r == is_prefix_of(s@, p@),
{
    let s_len = s.unicode_len();
    let p_len = p.unicode_len();
    if p_len > s_len {
        return false;
    }
    str_matches_at(s, p, 0, s_len, p_len)
}

/// The result of replacing, left to right, every occurrence of `p` in `s`
/// by `t`; the text already substituted is not scanned again.
pub open spec fn spec_replace_all(s: Seq<char>, p: Seq<char>, t: Seq<char>) -> Seq<char>
    decreases s.len(),
{
    if p.len() == 0 || s.len() < p.len() {
        s
    } else if s.subrange(0, p.len() as int) == p {
        t + spec_replace_all(s.skip(p.len() as int), p, t)
    } else {
        s.take(1) + spec_replace_all(s.skip(1), p, t)
    }
}

/// A string without any occurrence of the pattern is left unchanged.
pub proof fn lemma_replace_all_absent(s: Seq<char>, p: Seq<char>, t: Seq<char>)
    requires
        !contains_seq(s, p),
        p.len() >= 1,
    ensures
        spec_replace_all(s, p, t) == s,
    decreases s.len(),
{
    if s.len() >= p.len() {
        assert(!occurs_at(s, p, 0));
        assert(s.subrange(0, p.len() as int) != p);
        assert forall|k: int| !occurs_at(s.skip(1), p, k) by {
            if k >= 0 {
                lemma_occurs_at_skip(s, p, k);
                assert(!occurs_at(s, p, k + 1));
            }
        }
        lemma_replace_all_absent(s.skip(1), p, t);
        assert(s.take(1) + s.skip(1) =~= s);
    }
}

pub fn replace_all(s: &str, p: &str, t: &str) -> (r: String)
    requires
        p@.len() >= 1,
    ensures
        r@ == spec_replace_all(s@, p@, t@),
{
    let s_len = s.unicode_len();
    let p_len = p.unicode_len();
    let mut out = String::new();
    let mut i: usize = 0;
    proof {
        assert(s@.skip(0) =~= s@);
        assert(out@ + spec_replace_all(s@, p@, t@) =~= spec_replace_all(s@, p@, t@));
    }
    while i < s_len
        invariant
            i <= s_len,
            s_len == s@.len(),
            p_len == p@.len(),
            1 <= p_len,
            spec_replace_all(s@, p@, t@) == out@ + spec_replace_all(
                s@.skip(i as int),
                p@,
                t@,
            ),
        decreases s_len - i,
    {
        let ghost rem = s@.skip(i as int);
        if p_len <= s_len - i && str_matches_at(s, p, i, s_len, p_len) {
            proof {
                assert(rem.subrange(0, p@.len() as int) =~= s@.subrange(i as int, i + p@.len()));
                assert(rem.skip(p@.len() as int) =~= s@.skip(i + p@.len()));
            }
            out.append(t);
            i += p_len;
        } else {
            proof {
                if p_len <= s_len - i {
                    assert(rem.subrange(0, p@.len() as int) =~= s@.subrange(
                        i as int,
                        i + p@.len(),
                    ));
                    assert(rem.subrange(0, p@.len() as int) != p@);
                } else {
                    assert(rem.len() < p@.len());
                }
                assert(rem.take(1) =~= s@.subrange(i as int, i + 1));
                assert(rem.skip(1) =~= s@.skip(i + 1));
            }
            let piece = s.substring_char(i, i + 1);
            out.append(piece);
            i += 1;
        }
    }
    proof {
        assert(s@.skip(s_len as int) =~= Seq::<char>::empty());
        assert(out@ + Seq::<char>::empty() =~= out@);
    }
    out
}

/// The pieces of `s` between occurrences of the separator `sep`,
/// in order; there is always at least one piece.
pub open spec fn spec_split(s: Seq<char>, sep: char) -> Seq<Seq<char>>
    decreases s.len(),
    via spec_split_decreases
{
    match spec_find(s, seq![sep]) {
        None => seq![s],
        Some(i) => seq![s.take(i)] + spec_split(s.skip(i + 1), sep),
    }
}

#[via_fn]
proof fn spec_split_decreases(s: Seq<char>, sep: char) {
    lemma_spec_find_characterization(s, seq![sep]);
    match spec_find(s, seq![sep]) {
        Some(i) => {
            assert(occurs_at(s, seq![sep], i));
        },
        None => {},
    }
}

pub fn split_str(s: &str, sep: &str) -> (r: Vec<String>)
    requires
        sep@.len() == 1,
    ensures
        r.deep_view() == spec_split(s@, sep@[0]),
{
    let s_len = s.unicode_len();
    let mut out: Vec<String> = Vec::new();
    let mut pos: usize = 0;
    let ghost c = sep@[0];
    proof {
        assert(seq![c] =~= sep@);
        assert(s@.skip(0) =~= s@);
        assert(out.deep_view() + spec_split(s@, c) =~= spec_split(s@, c));
    }
    loop
        invariant
            pos <= s_len,
            s_len == s@.len(),
            sep@ =~= seq![c],
            spec_split(s@, c) == out.deep_view() + spec_split(s@.skip(pos as int), c),
        decreases s_len - pos,
    {
        let ghost rem = s@.skip(pos as int);
        match str_find_from(s, sep, pos) {
            Some(j) => {
                proof {
                    lemma_spec_find_characterization(rem, sep@);
                    assert(occurs_at(rem, sep@, j - pos));
                    assert(rem.take(j - pos) =~= s@.subrange(pos as int, j as int));
                    assert(rem.skip(j - pos + 1) =~= s@.skip(j + 1));
                    assert(spec_split(rem, c) == seq![rem.take(j - pos)] + spec_split(
                        rem.skip(j - pos + 1),
                        c,
                    ));
                }
                let piece = s.substring_char(pos, j);
                let ghost old_out = out.deep_view();
                out.push(piece.to_owned());
                proof {
                    assert(out.deep_view() =~= old_out + seq![piece@]);
                    assert(out.deep_view() + spec_split(s@.skip(j + 1), c) =~= old_out + (seq![
                        rem.take(j - pos),
                    ] + spec_split(rem.skip(j - pos + 1), c)));
                }
                pos = j + 1;
            },
            None => {
                let piece = s.substring_char(pos, s_len);
                let ghost old_out = out.deep_view();
                out.push(piece.to_owned());
                proof {
                    assert(piece@ =~= rem);
                    assert(out.deep_view() =~= old_out + seq![rem]);
                    assert(spec_split(rem, c) == seq![rem]);
                    assert(out.deep_view() =~= old_out + spec_split(rem, c));
                }
                return out;
            },
        }
    }
}

/// The character for one decimal digit.
pub open spec fn digit_char(d: nat) -> char {
    if d == 0 {
        '0'
    } else if d == 1 {
        '1'
    } else if d == 2 {
        '2'
    } else if d == 3 {
        '3'
    } else if d == 4 {
        '4'
    } else if d == 5 {
        '5'
    } else if d == 6 {
        '6'
    } else if d == 7 {
        '7'
    } else if d == 8 {
        '8'
    } else {
        '9'
    }
}

/// The decimal digits of `n`, most significant first, with no leading zeros.
pub open spec fn spec_dec(n: nat) -> Seq<char>
    decreases n,
{
    if n < 10 {
        seq![digit_char(n)]
    } else {
        spec_dec(n / 10) + seq![digit_char(n % 10)]
    }
}

fn digit_str(d: usize) -> (r: &'static str)
    requires
        d < 10,
    ensures
        r@ =~= seq![digit_char(d as nat)],
{
    proof {
        reveal_strlit("0");
        reveal_strlit("1");
        reveal_strlit("2");
        reveal_strlit("3");
        reveal_strlit("4");
        reveal_strlit("5");
        reveal_strlit("6");
        reveal_strlit("7");
        reveal_strlit("8");
        reveal_strlit("9");
    }
    match d {
        0 => "0",
        1 => "1",
        2 => "2",
        3 => "3",
        4 => "4",
        5 => "5",
        6 => "6",
        7 => "7",
        8 => "8",
        _ => "9",
    }
}

/// Decimal rendering of a machine integer.
pub fn dec_usize(n: usize) -> (r: String)
    ensures
        r@ == spec_dec(n as nat),
    decreases n,
{
    if n < 10 {
        digit_str(n).to_owned()
    } else {
        let mut s = dec_usize(n / 10);
        s.append(digit_str(n % 10));
        s
    }
}

} // verus!
