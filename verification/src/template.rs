use vstd::prelude::*;
use vstd::string::StrSliceExecFns;
use vstd::string::StringExecFns;
use crate::text::{spec_split, split_str, str_eq, str_starts_with, is_prefix_of};
use crate::strmap::{StrMap, spec_insert};

verus! {

/// The route source with one leading and one trailing `/` removed.
pub open spec fn spec_strip(s: Seq<char>) -> Seq<char> {
    let a = if s.len() > 0 && s[0] == '/' {
        s.drop_first()
    } else {
        s
    };
    if a.len() > 0 && a.last() == '/' {
        a.drop_last()
    } else {
        a
    }
}

/// The segments of a route source: the stripped source split on `/`.
pub open spec fn spec_segs(source: Seq<char>) -> Seq<Seq<char>> {
    spec_split(spec_strip(source), '/')
}

/// A segment written `{...}` matches any value; other segments are literal.
pub open spec fn spec_is_wrapped(seg: Seq<char>) -> bool {
    seg.len() >= 2 && seg[0] == '{' && seg[seg.len() - 1] == '}'
}

/// The text between the braces of a wrapped segment.
pub open spec fn spec_inner(seg: Seq<char>) -> Seq<char> {
    seg.subrange(1, seg.len() - 1)
}

/// A wrapped segment with a non-empty inner text declares that name.
pub open spec fn spec_is_named(seg: Seq<char>) -> bool {
    spec_is_wrapped(seg) && spec_inner(seg).len() > 0
}

/// The variable names a route declares, in declaration order.
pub open spec fn spec_var_names(segs: Seq<Seq<char>>) -> Seq<Seq<char>>
    decreases segs.len(),
{
    if segs.len() == 0 {
        Seq::empty()
    } else {
        let rest = spec_var_names(segs.drop_first());
        if spec_is_named(segs[0]) {
            seq![spec_inner(segs[0])] + rest
        } else {
            rest
        }
    }
}

/// The anchored match pattern a route compiles to, between the anchors.
pub open spec fn spec_pattern_body(segs: Seq<Seq<char>>) -> Seq<char>
    decreases segs.len(),
{
    if segs.len() == 0 {
        Seq::empty()
    } else {
        let head: Seq<char> = if spec_is_wrapped(segs[0]) {
            "/([^/]+)"@
        } else {
            seq!['/'] + segs[0]
        };
        head + spec_pattern_body(segs.drop_first())
    }
}

/// The full anchored match pattern of a route.
pub open spec fn spec_pattern(source: Seq<char>) -> Seq<char> {
    seq!['^'] + spec_pattern_body(spec_segs(source)) + seq!['$']
}

/// Whether one template segment accepts one path segment: a wrapped
/// segment takes any non-empty value, a literal only its own text.
pub open spec fn spec_seg_matches(seg: Seq<char>, piece: Seq<char>) -> bool {
    if spec_is_wrapped(seg) {
        piece.len() >= 1
    } else {
        piece == seg
    }
}

/// Whether a path structurally matches a route: the path starts with `/`
/// and its segments line up with the route's, one for one.
pub open spec fn spec_tmpl_matches(segs: Seq<Seq<char>>, path: Seq<char>) -> bool {
    let pieces = spec_split(path, '/');
    &&& pieces.len() == segs.len() + 1
    &&& pieces[0].len() == 0
    &&& forall|i: int| 0 <= i < segs.len() ==> spec_seg_matches(segs[i], #[trigger] pieces[i + 1])
}

/// The bindings a match extracts, folded into `m` from segment `i` on:
/// each named segment binds its name to the path value at its position,
/// a repeated name overwriting the earlier binding.
pub open spec fn spec_bind_step(
    m: Seq<(Seq<char>, Seq<char>)>,
    segs: Seq<Seq<char>>,
    pieces: Seq<Seq<char>>,
    i: int,
) -> Seq<(Seq<char>, Seq<char>)>
    decreases segs.len() - i,
{
    if i < 0 || i >= segs.len() {
        m
    } else {
        let m2 = if spec_is_named(segs[i]) {
            spec_insert(m, spec_inner(segs[i]), pieces[i + 1])
        } else {
            m
        };
        spec_bind_step(m2, segs, pieces, i + 1)
    }
}

/// The variable bindings extracted when `segs` matches `path`.
pub open spec fn spec_extracted(segs: Seq<Seq<char>>, path: Seq<char>) -> Seq<
    (Seq<char>, Seq<char>),
> {
    spec_bind_step(Seq::empty(), segs, spec_split(path, '/'), 0)
}

/// A compiled route path: its raw segments, the names it declares, and
/// the anchored pattern it stands for.
#[derive(Debug)]
pub struct PathVariables {
    pub segments: Vec<String>,
    pub variables: Vec<String>,
    pub match_pattern: String,
}

/// A path that does not structurally match the route it was held against.
#[derive(Debug, PartialEq)]
pub struct MatchError;

/// Classifies one segment: wrapped in braces or not.
fn seg_is_wrapped(seg: &str) -> (r: bool)
    ensures
        r == spec_is_wrapped(seg@),
{
    let n = seg.unicode_len();
    if n < 2 {
        return false;
    }
    seg.get_char(0) == '{' && seg.get_char(n - 1) == '}'
}

impl PathVariables {
    /// Compiles a route path: strips one leading and one trailing `/`,
    /// splits on `/`, turns each `{...}` segment into a capture — a
    /// non-empty inner text declaring a variable — and every other
    /// segment into a literal.
    pub fn new(source: &str) -> (r: PathVariables)
        ensures
            r.segments.deep_view() == spec_segs(source@),
            r.variables.deep_view() == spec_var_names(spec_segs(source@)),
            r.match_pattern@ == spec_pattern(source@),
    {
        proof {
            reveal_strlit("/");
            reveal_strlit("^");
            reveal_strlit("$");
            reveal_strlit("/([^/]+)");
        }
        let src_len = source.unicode_len();
        proof {
            assert("/"@ =~= seq!['/']);
            if source@.len() > 0 {
                assert(source@.subrange(0, 1) =~= seq![source@[0]]);
            }
        }
        let has_lead = str_starts_with(source, "/");
        proof {
            assert("/"@.len() == 1);
            assert("/"@[0] == '/');
            assert(has_lead == is_prefix_of(source@, "/"@));
            if source@.len() > 0 && source@[0] == '/' {
                assert(source@.subrange(0, 1) =~= "/"@);
            }
            assert(has_lead == (source@.len() > 0 && source@[0] == '/'));
        }
        let stripped1 = if has_lead {
            let t = source.substring_char(1, src_len);
            proof {
                assert(t@ =~= source@.drop_first());
            }
            t
        } else {
            source
        };
        let s1_len = stripped1.unicode_len();
        let stripped = if s1_len > 0 && stripped1.get_char(s1_len - 1) == '/' {
            let t = stripped1.substring_char(0, s1_len - 1);
            proof {
                assert(t@ =~= stripped1@.drop_last());
            }
            t
        } else {
            stripped1
        };
        proof {
            assert(stripped1@ == (if source@.len() > 0 && source@[0] == '/' {
                source@.drop_first()
            } else {
                source@
            }));
            assert(stripped@ == (if stripped1@.len() > 0 && stripped1@.last() == '/' {
                stripped1@.drop_last()
            } else {
                stripped1@
            }));
            assert(stripped@ == spec_strip(source@));
        }
        let segments = split_str(stripped, "/");
        let ghost segsv = segments.deep_view();
        proof {
            assert(segsv == spec_segs(source@));
        }
        let n = segments.len();
        let mut variables: Vec<String> = Vec::new();
        let mut match_pattern = String::from_str("^");
        let mut i: usize = 0;
        proof {
            assert(segsv.skip(0) =~= segsv);
            assert(variables.deep_view() =~= Seq::<Seq<char>>::empty());
            assert(variables.deep_view() + spec_var_names(segsv) =~= spec_var_names(segsv));
            assert(match_pattern@ =~= seq!['^']);
            assert(match_pattern@ + spec_pattern_body(segsv) + seq!['$'] =~= spec_pattern(
                source@,
            ));
        }
        while i < n
            invariant
                i <= n,
                n == segsv.len(),
                segsv == segments.deep_view(),
                variables.deep_view() + spec_var_names(segsv.skip(i as int)) =~= spec_var_names(
                    segsv,
                ),
                match_pattern@ + spec_pattern_body(segsv.skip(i as int)) + seq!['$']
                    =~= spec_pattern(source@),
            decreases n - i,
        {
            proof {
                reveal_strlit("/");
                reveal_strlit("/([^/]+)");
                assert(segments@[i as int]@ == segsv[i as int]);
                assert(segsv.skip(i as int)[0] == segsv[i as int]);
                assert(segsv.skip(i as int).drop_first() =~= segsv.skip(i + 1));
            }
            let seg = &segments[i];
            let seg_len = seg.as_str().unicode_len();
            if seg_is_wrapped(seg.as_str()) {
                let inner = seg.as_str().substring_char(1, seg_len - 1);
                proof {
                    assert(inner@ =~= spec_inner(segsv[i as int]));
                }
                if seg_len > 2 {
                    proof {
                        assert(spec_inner(segsv[i as int]).len() > 0);
                    }
                    let ghost oldvars = variables.deep_view();
                    variables.push(inner.to_owned());
                    proof {
                        assert(variables.deep_view() =~= oldvars + seq![inner@]);
                    }
                } else {
                    proof {
                        assert(spec_inner(segsv[i as int]).len() == 0);
                    }
                }
                match_pattern.append("/([^/]+)");
            } else {
                match_pattern.append("/");
                match_pattern.append(seg.as_str());
            }
            i += 1;
        }
        proof {
            assert(segsv.skip(n as int).len() == 0);
            assert(spec_var_names(segsv.skip(n as int)) =~= Seq::<Seq<char>>::empty());
            assert(variables.deep_view() =~= spec_var_names(segsv));
        }
        match_pattern.append("$");
        proof {
            assert(spec_pattern_body(segsv.skip(n as int)) =~= Seq::<char>::empty());
            assert(match_pattern@ =~= spec_pattern(source@));
        }
        PathVariables { segments, variables, match_pattern }
    }
}

/// Holds a path against a compiled route: on a structural match, the
/// extracted bindings; otherwise an error, so the caller can move on to
/// its next rule.
pub fn extract_variables(variables: &PathVariables, path: &str) -> (r: Result<StrMap, MatchError>)
    ensures
        r is Ok <==> spec_tmpl_matches(variables.segments.deep_view(), path@),
        match r {
            Ok(m) => m@ == spec_extracted(variables.segments.deep_view(), path@),
            Err(_) => true,
        },
{
    proof {
        reveal_strlit("/");
    }
    let ghost segsv = variables.segments.deep_view();
    let pieces = split_str(path, "/");
    let ghost piecesv = pieces.deep_view();
    proof {
        assert(piecesv == spec_split(path@, '/'));
    }
    let n = variables.segments.len();
    if pieces.len() == 0 || pieces.len() - 1 != n {
        return Err(MatchError);
    }
    if !pieces[0].as_str().is_empty() {
        proof {
            assert(piecesv[0].len() != 0);
        }
        return Err(MatchError);
    }
    let mut map = StrMap::new();
    let mut i: usize = 0;
    proof {
        assert(map@ =~= Seq::<(Seq<char>, Seq<char>)>::empty());
    }
    while i < n
        invariant
            i <= n,
            n == segsv.len(),
            segsv == variables.segments.deep_view(),
            piecesv == pieces.deep_view(),
            piecesv == spec_split(path@, '/'),
            piecesv.len() == n + 1,
            n + 1 <= usize::MAX,
            forall|j: int| 0 <= j < i ==> spec_seg_matches(segsv[j], #[trigger] piecesv[j + 1]),
            spec_bind_step(Seq::empty(), segsv, piecesv, 0) == spec_bind_step(
                map@,
                segsv,
                piecesv,
                i as int,
            ),
        decreases n - i,
    {
        proof {
            assert(variables.segments@[i as int]@ == segsv[i as int]);
            assert(pieces@[i as int + 1]@ == piecesv[i as int + 1]);
        }
        let seg = &variables.segments[i];
        let piece = &pieces[i + 1];
        let seg_len = seg.as_str().unicode_len();
        if seg_is_wrapped(seg.as_str()) {
            if piece.as_str().is_empty() {
                proof {
                    assert(!spec_seg_matches(segsv[i as int], piecesv[i as int + 1]));
                }
                return Err(MatchError);
            }
            if seg_len > 2 {
                let inner = seg.as_str().substring_char(1, seg_len - 1);
                proof {
                    assert(inner@ =~= spec_inner(segsv[i as int]));
                    assert(spec_is_named(segsv[i as int]));
                }
                map.insert(inner.to_owned(), piece.clone());
            } else {
                proof {
                    assert(spec_inner(segsv[i as int]).len() == 0);
                    assert(!spec_is_named(segsv[i as int]));
                }
            }
        } else {
            if !str_eq(seg.as_str(), piece.as_str()) {
                proof {
                    assert(!spec_seg_matches(segsv[i as int], piecesv[i as int + 1]));
                }
                return Err(MatchError);
            }
        }
        i += 1;
    }
    proof {
        assert(spec_bind_step(map@, segsv, piecesv, n as int) == map@);
        assert(spec_tmpl_matches(segsv, path@));
    }
    Ok(map)
}

} // verus!
