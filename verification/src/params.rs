use vstd::prelude::*;
use vstd::string::StrSliceExecFns;
use vstd::string::StringExecFns;
use crate::bytes::{lossy_of, utf8_lossy, bytes_find_from};
use crate::json::{JsonVal, spec_resolve, resolve_body_field, json_of};
use crate::strmap::{StrMap, spec_insert};
use crate::text::{
    spec_find,
    spec_split,
    spec_replace_all,
    split_str,
    str_find_from,
    replace_all,
    lemma_spec_find_characterization,
};

verus! {

/// The pairs that a query string declares, folded into `m` from piece
/// `i` on: each `key=value` piece binds, a later duplicate key
/// overwriting the earlier value; a piece without `=` declares nothing.
pub open spec fn spec_query_fold(
    m: Seq<(Seq<char>, Seq<char>)>,
    pieces: Seq<Seq<char>>,
    i: int,
) -> Seq<(Seq<char>, Seq<char>)>
    decreases pieces.len() - i,
{
    if i < 0 || i >= pieces.len() {
        m
    } else {
        let m2 = match spec_find(pieces[i], seq!['=']) {
            Some(e) => spec_insert(m, pieces[i].take(e), pieces[i].skip(e + 1)),
            None => m,
        };
        spec_query_fold(m2, pieces, i + 1)
    }
}

/// The parameters of a query string: its `&`-separated pieces, each
/// split at its first `=`.
pub open spec fn spec_parse_query(q: Seq<char>) -> Seq<(Seq<char>, Seq<char>)> {
    spec_query_fold(Seq::empty(), spec_split(q, '&'), 0)
}

/// Parses the query parameters of a full path, where `query_start` is
/// the position of the first `?`; at or past the end of the path, there
/// is no query and the map is empty. The text after the `?` is read as
/// UTF-8 with replacement, pieces are split on `&`, each piece binds
/// `key=value` at its first `=`, and the last duplicate of a key wins.
pub fn parse_query(full_path: &[u8], query_start: usize) -> (r: StrMap)
    ensures
        query_start >= full_path@.len() ==> r@ == Seq::<(Seq<char>, Seq<char>)>::empty(),
        query_start < full_path@.len() ==> r@ == spec_parse_query(
            lossy_of(full_path@.skip(query_start + 1)),
        ),
{
    if query_start >= full_path.len() {
        let r = StrMap::new();
        proof {
            assert(r@ =~= Seq::<(Seq<char>, Seq<char>)>::empty());
        }
        return r;
    }
    proof {
        reveal_strlit("&");
        reveal_strlit("=");
    }
    let q = utf8_lossy(&full_path[query_start + 1..full_path.len()]);
    let pieces = split_str(q.as_str(), "&");
    let ghost piecesv = pieces.deep_view();
    proof {
        assert("&"@ =~= seq!['&']);
        assert(piecesv == spec_split(lossy_of(full_path@.skip(query_start + 1)), '&'));
    }
    let n = pieces.len();
    let mut map = StrMap::new();
    let mut i: usize = 0;
    proof {
        assert(map@ =~= Seq::<(Seq<char>, Seq<char>)>::empty());
    }
    while i < n
        invariant
            i <= n,
            n == piecesv.len(),
            piecesv == pieces.deep_view(),
            spec_query_fold(Seq::empty(), piecesv, 0) == spec_query_fold(map@, piecesv, i as int),
        decreases n - i,
    {
        proof {
            reveal_strlit("=");
            assert("="@ =~= seq!['=']);
            assert(pieces@[i as int]@ == piecesv[i as int]);
        }
        let piece = &pieces[i];
        let ghost pv = piecesv[i as int];
        match str_find_from(piece.as_str(), "=", 0) {
            Some(e) => {
                proof {
                    assert(pv.skip(0) =~= pv);
                    lemma_spec_find_characterization(pv, "="@);
                    assert(crate::text::occurs_at(pv, "="@, e as int));
                    assert(spec_find(pv, seq!['=']) == Some(e as int));
                }
                let p_len = piece.as_str().unicode_len();
                let key = piece.as_str().substring_char(0, e);
                let val = piece.as_str().substring_char(e + 1, p_len);
                proof {
                    assert(key@ =~= pv.take(e as int));
                    assert(val@ =~= pv.skip(e + 1));
                }
                map.insert(key.to_owned(), val.to_owned());
            },
            None => {
                proof {
                    assert(pv.skip(0) =~= pv);
                    assert(spec_find(pv, seq!['=']) is None);
                }
            },
        }
        i += 1;
    }
    proof {
        assert(spec_query_fold(map@, piecesv, n as int) == map@);
    }
    map
}

/// Parses the body of a raw request: the bytes after the first blank
/// line, read as JSON; without a separator or valid JSON the body is null.
pub fn parse_body(content: &[u8]) -> (r: JsonVal)
    ensures
        match spec_find(content@, seq![13u8, 10u8, 13u8, 10u8]) {
            Some(i) => r == json_of(content@.skip(i + 4)),
            None => r == JsonVal::Null,
        },
{
    let mut sep: Vec<u8> = Vec::new();
    sep.push(13);
    sep.push(10);
    sep.push(13);
    sep.push(10);
    proof {
        assert(sep@ =~= seq![13u8, 10u8, 13u8, 10u8]);
        assert(content@.skip(0) =~= content@);
    }
    match bytes_find_from(content, sep.as_slice(), 0) {
        Some(i) => {
            proof {
                lemma_spec_find_characterization(content@, sep@);
                assert(crate::text::occurs_at(content@, sep@, i as int));
            }
            let c_len = content.len();
            let rest = &content[i + 4..c_len];
            proof {
                assert(rest@ =~= content@.skip(i + 4));
            }
            crate::json::parse_json_bytes(rest)
        },
        None => JsonVal::Null,
    }
}

/// One placeholder token: `{`, the family mark, the name, `}`.
pub open spec fn spec_placeholder(intro: char, name: Seq<char>) -> Seq<char> {
    seq!['{', intro] + name + seq!['}']
}

/// The body text after substituting, in order, each bound pair from
/// index `i` on: every occurrence of the pair's placeholder becomes its
/// value.
pub open spec fn spec_subst_pairs(
    s: Seq<char>,
    pairs: Seq<(Seq<char>, Seq<char>)>,
    intro: char,
    i: int,
) -> Seq<char>
    decreases pairs.len() - i,
{
    if i < 0 || i >= pairs.len() {
        s
    } else {
        spec_subst_pairs(
            spec_replace_all(s, spec_placeholder(intro, pairs[i].0), pairs[i].1),
            pairs,
            intro,
            i + 1,
        )
    }
}

/// The body text after resolving `{#...}` references left to right:
/// each resolved reference becomes its value and scanning resumes after
/// that value; a reference without `}` or one that fails to resolve
/// stops the pass, leaving the rest of the text as it stands.
pub open spec fn spec_subst_refs(s: Seq<char>, body: JsonVal) -> Seq<char>
    decreases s.len(),
    via spec_subst_refs_decreases
{
    match spec_find(s, seq!['{', '#']) {
        None => s,
        Some(o) => match spec_find(s.skip(o + 2), seq!['}']) {
            None => s,
            Some(e) => match spec_resolve(body, s.subrange(o + 2, o + 2 + e)) {
                Some(val) => s.take(o) + val + spec_subst_refs(s.skip(o + 2 + e + 1), body),
                None => s,
            },
        },
    }
}

#[via_fn]
proof fn spec_subst_refs_decreases(s: Seq<char>, body: JsonVal) {
    lemma_spec_find_characterization(s, seq!['{', '#']);
    match spec_find(s, seq!['{', '#']) {
        None => {},
        Some(o) => {
            assert(crate::text::occurs_at(s, seq!['{', '#'], o));
            lemma_spec_find_characterization(s.skip(o + 2), seq!['}']);
            match spec_find(s.skip(o + 2), seq!['}']) {
                None => {},
                Some(e) => {
                    assert(crate::text::occurs_at(s.skip(o + 2), seq!['}'], e));
                },
            }
        },
    }
}

/// A rendered body after all three passes: path variables, then query
/// parameters, then request-body references.
pub open spec fn spec_substitute(
    s: Seq<char>,
    vars: Seq<(Seq<char>, Seq<char>)>,
    query: Seq<(Seq<char>, Seq<char>)>,
    body: JsonVal,
) -> Seq<char> {
    spec_subst_refs(spec_subst_pairs(spec_subst_pairs(s, vars, '/', 0), query, '?', 0), body)
}

/// Substitutes one family of placeholders: for each pair of `map` in
/// order, every occurrence of `opener + name + "}"` becomes the value.
fn subst_pairs(body: &mut String, map: &StrMap, opener: &str)
    requires
        opener@.len() == 2,
        opener@[0] == '{',
    ensures
        final(body)@ == spec_subst_pairs(old(body)@, map@, opener@[1], 0),
{
    let n = map.len();
    let mut i: usize = 0;
    let ghost intro = opener@[1];
    while i < n
        invariant
            i <= n,
            n == map@.len(),
            opener@.len() == 2,
            opener@[0] == '{',
            intro == opener@[1],
            spec_subst_pairs(old(body)@, map@, intro, 0) == spec_subst_pairs(
                body@,
                map@,
                intro,
                i as int,
            ),
        decreases n - i,
    {
        proof {
            reveal_strlit("}");
        }
        let pair = map.pair(i);
        let mut pat = opener.to_owned();
        pat.append(pair.0.as_str());
        pat.append("}");
        proof {
            assert("}"@ =~= seq!['}']);
            assert(pat@ =~= spec_placeholder(intro, map@[i as int].0));
        }
        let replaced = replace_all(body.as_str(), pat.as_str(), pair.1.as_str());
        *body = replaced;
        i += 1;
    }
    proof {
        assert(spec_subst_pairs(body@, map@, intro, n as int) == body@);
    }
}

/// Resolves `{#...}` references left to right, stopping at the first
/// reference that has no closing brace or does not resolve.
fn subst_refs(s: &str, body: &JsonVal) -> (r: String)
    ensures
        r@ == spec_subst_refs(s@, *body),
    decreases s@.len(),
{
    proof {
        reveal_strlit("{#");
        reveal_strlit("}");
        assert("{#"@ =~= seq!['{', '#']);
        assert("}"@ =~= seq!['}']);
        assert(s@.skip(0) =~= s@);
    }
    let s_len = s.unicode_len();
    match str_find_from(s, "{#", 0) {
        None => s.to_owned(),
        Some(o) => {
            proof {
                lemma_spec_find_characterization(s@, "{#"@);
                assert(crate::text::occurs_at(s@, "{#"@, o as int));
            }
            match str_find_from(s, "}", o + 2) {
                None => s.to_owned(),
                Some(e) => {
                    proof {
                        lemma_spec_find_characterization(s@.skip(o + 2), "}"@);
                        assert(crate::text::occurs_at(s@.skip(o + 2), "}"@, e - (o + 2)));
                    }
                    let key = s.substring_char(o + 2, e);
                    proof {
                        assert(key@ =~= s@.subrange(o + 2, o + 2 + (e - (o + 2))));
                    }
                    match resolve_body_field(body, key) {
                        Some(val) => {
                            let mut out = s.substring_char(0, o).to_owned();
                            proof {
                                assert(out@ =~= s@.take(o as int));
                            }
                            out.append(val.as_str());
                            let tail = s.substring_char(e + 1, s_len);
                            proof {
                                assert(tail@ =~= s@.skip(o + 2 + (e - (o + 2)) + 1));
                            }
                            let rest = subst_refs(tail, body);
                            out.append(rest.as_str());
                            out
                        },
                        None => s.to_owned(),
                    }
                },
            }
        },
    }
}

/// Renders a response-body template: substitutes path variables, then
/// query parameters, then request-body references, in that order, so
/// that a later pass sees the text the earlier passes produced.
pub fn substitute(body: &mut String, path_vars: &StrMap, query_params: &StrMap, request_body: &JsonVal)
    ensures
        final(body)@ == spec_substitute(old(body)@, path_vars@, query_params@, *request_body),
{
    proof {
        reveal_strlit("{/");
        reveal_strlit("{?");
    }
    subst_pairs(body, path_vars, "{/");
    subst_pairs(body, query_params, "{?");
    let refs = subst_refs(body.as_str(), request_body);
    *body = refs;
}

} // verus!
