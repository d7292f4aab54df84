use vstd::prelude::*;
use crate::config::{ConfigMethod, ConfigResponse};
use crate::http::{spec_rule_matches, spec_first_match};
use crate::json::JsonVal;
use crate::params::{
    spec_query_fold,
    spec_parse_query,
    spec_subst_pairs,
    spec_subst_refs,
    spec_substitute,
    spec_placeholder,
};
use crate::strmap::{
    spec_lookup,
    spec_insert,
    lemma_lookup_insert_same,
    lemma_lookup_insert_other,
};
use crate::template::{
    spec_segs,
    spec_is_named,
    spec_inner,
    spec_var_names,
    spec_tmpl_matches,
    spec_extracted,
    spec_bind_step,
};
use crate::text::{
    occurs_at,
    contains_seq,
    spec_find,
    spec_split,
    spec_replace_all,
    lemma_replace_all_absent,
    lemma_spec_find_characterization,
};

verus! {

/// An occurrence of a pattern is an occurrence of each of its prefixes.
proof fn lemma_occurrence_of_prefix(s: Seq<char>, p: Seq<char>, q: Seq<char>, i: int)
    requires
        occurs_at(s, p, i),
        q.len() <= p.len(),
        q == p.take(q.len() as int),
    ensures
        occurs_at(s, q, i),
{
    assert(s.subrange(i, i + q.len()) =~= s.subrange(i, i + p.len()).take(q.len() as int));
}

/// Inserting a key that the map does not hold grows it by one pair.
proof fn lemma_insert_len_absent(m: Seq<(Seq<char>, Seq<char>)>, k: Seq<char>, v: Seq<char>)
    requires
        spec_lookup(m, k) is None,
    ensures
        spec_insert(m, k, v).len() == m.len() + 1,
    decreases m.len(),
{
    if m.len() == 0 {
    } else {
        assert(m[0].0 != k);
        lemma_insert_len_absent(m.drop_first(), k, v);
    }
}

/// Folding bindings whose names all differ from `key` leaves `key`'s
/// binding unchanged.
proof fn lemma_bind_step_absent(
    m0: Seq<(Seq<char>, Seq<char>)>,
    segs: Seq<Seq<char>>,
    pieces: Seq<Seq<char>>,
    i: int,
    key: Seq<char>,
)
    requires
        forall|a: int|
            i <= a < segs.len() && spec_is_named(#[trigger] segs[a]) ==> spec_inner(segs[a])
                != key,
    ensures
        spec_lookup(spec_bind_step(m0, segs, pieces, i), key) == spec_lookup(m0, key),
    decreases segs.len() - i,
{
    if i < 0 || i >= segs.len() {
    } else {
        let m2 = if spec_is_named(segs[i]) {
            spec_insert(m0, spec_inner(segs[i]), pieces[i + 1])
        } else {
            m0
        };
        if spec_is_named(segs[i]) {
            lemma_lookup_insert_other(m0, spec_inner(segs[i]), pieces[i + 1], key);
        }
        lemma_bind_step_absent(m2, segs, pieces, i + 1, key);
    }
}

/// With distinct names from `i` on, the binding extracted for the name
/// declared at `k` is the path value standing at `k`.
proof fn lemma_bind_step_lookup(
    m0: Seq<(Seq<char>, Seq<char>)>,
    segs: Seq<Seq<char>>,
    pieces: Seq<Seq<char>>,
    i: int,
    k: int,
)
    requires
        0 <= i <= k < segs.len(),
        spec_is_named(segs[k]),
        forall|a: int, b: int|
            i <= a < b < segs.len() && spec_is_named(#[trigger] segs[a]) && spec_is_named(
                #[trigger] segs[b],
            ) ==> spec_inner(segs[a]) != spec_inner(segs[b]),
    ensures
        spec_lookup(spec_bind_step(m0, segs, pieces, i), spec_inner(segs[k])) == Some(
            pieces[k + 1],
        ),
    decreases segs.len() - i,
{
    let m2 = if spec_is_named(segs[i]) {
        spec_insert(m0, spec_inner(segs[i]), pieces[i + 1])
    } else {
        m0
    };
    if i == k {
        lemma_lookup_insert_same(m0, spec_inner(segs[k]), pieces[k + 1]);
        assert(forall|a: int|
            i + 1 <= a < segs.len() && spec_is_named(#[trigger] segs[a]) ==> spec_inner(segs[a])
                != spec_inner(segs[k]));
        lemma_bind_step_absent(m2, segs, pieces, i + 1, spec_inner(segs[k]));
    } else {
        lemma_bind_step_lookup(m2, segs, pieces, i + 1, k);
    }
}

/// With distinct names from `i` on, none already bound in `m0`, the fold
/// adds exactly one pair per name.
proof fn lemma_bind_step_len(
    m0: Seq<(Seq<char>, Seq<char>)>,
    segs: Seq<Seq<char>>,
    pieces: Seq<Seq<char>>,
    i: int,
)
    requires
        0 <= i <= segs.len(),
        forall|a: int, b: int|
            i <= a < b < segs.len() && spec_is_named(#[trigger] segs[a]) && spec_is_named(
                #[trigger] segs[b],
            ) ==> spec_inner(segs[a]) != spec_inner(segs[b]),
        forall|a: int|
            i <= a < segs.len() && spec_is_named(#[trigger] segs[a]) ==> spec_lookup(
                m0,
                spec_inner(segs[a]),
            ) is None,
    ensures
        spec_bind_step(m0, segs, pieces, i).len() == m0.len() + spec_var_names(
            segs.skip(i),
        ).len(),
    decreases segs.len() - i,
{
    if i >= segs.len() {
        assert(segs.skip(i).len() == 0);
    } else {
        assert(segs.skip(i)[0] == segs[i]);
        assert(segs.skip(i).drop_first() =~= segs.skip(i + 1));
        if spec_is_named(segs[i]) {
            let key = spec_inner(segs[i]);
            let m2 = spec_insert(m0, key, pieces[i + 1]);
            lemma_insert_len_absent(m0, key, pieces[i + 1]);
            assert forall|a: int|
                i + 1 <= a < segs.len() && spec_is_named(#[trigger] segs[a]) implies spec_lookup(
                m2,
                spec_inner(segs[a]),
            ) is None by {
                lemma_lookup_insert_other(m0, key, pieces[i + 1], spec_inner(segs[a]));
            }
            lemma_bind_step_len(m2, segs, pieces, i + 1);
        } else {
            lemma_bind_step_len(m0, segs, pieces, i + 1);
        }
    }
}

/// Law: a structurally matching path yields exactly the route's named
/// variables. With the route's names distinct, the extracted bindings
/// hold one pair per declared name, and each name is bound to the path
/// segment standing where the name was declared.
pub proof fn lemma_extraction_complete(source: Seq<char>, path: Seq<char>)
    requires
        spec_tmpl_matches(spec_segs(source), path),
        forall|a: int, b: int|
            0 <= a < b < spec_segs(source).len() && spec_is_named(
                #[trigger] spec_segs(source)[a],
            ) && spec_is_named(#[trigger] spec_segs(source)[b]) ==> spec_inner(
                spec_segs(source)[a],
            ) != spec_inner(spec_segs(source)[b]),
    ensures
        spec_extracted(spec_segs(source), path).len() == spec_var_names(
            spec_segs(source),
        ).len(),
        forall|k: int|
            0 <= k < spec_segs(source).len() && spec_is_named(
                #[trigger] spec_segs(source)[k],
            ) ==> spec_lookup(
                spec_extracted(spec_segs(source), path),
                spec_inner(spec_segs(source)[k]),
            ) == Some(spec_split(path, '/')[k + 1]),
{
    let segs = spec_segs(source);
    let pieces = spec_split(path, '/');
    lemma_bind_step_len(Seq::empty(), segs, pieces, 0);
    assert(segs.skip(0) =~= segs);
    assert forall|k: int|
        0 <= k < segs.len() && spec_is_named(#[trigger] segs[k]) implies spec_lookup(
        spec_extracted(segs, path),
        spec_inner(segs[k]),
    ) == Some(pieces[k + 1]) by {
        lemma_bind_step_lookup(Seq::empty(), segs, pieces, 0, k);
    }
}

/// `spec_first_match` names the earliest matching rule and nothing else.
proof fn lemma_first_match_characterization(
    rules: Seq<ConfigResponse>,
    m: ConfigMethod,
    path: Seq<char>,
    i: int,
)
    requires
        0 <= i,
    ensures
        match spec_first_match(rules, m, path, i) {
            Some(j) => i <= j < rules.len() && spec_rule_matches(rules[j], m, path) && forall|
                k: int,
            | i <= k < j ==> !spec_rule_matches(#[trigger] rules[k], m, path),
            None => forall|k: int|
                i <= k < rules.len() ==> !spec_rule_matches(#[trigger] rules[k], m, path),
        },
    decreases rules.len() - i,
{
    if i >= rules.len() {
    } else if spec_rule_matches(rules[i], m, path) {
    } else {
        lemma_first_match_characterization(rules, m, path, i + 1);
    }
}

/// Law: rule order decides. When two enabled rules both answer the same
/// method and path, the one standing earlier in the configuration is
/// selected, whatever the shape of either route.
pub proof fn lemma_rule_order_determinism(
    rules: Seq<ConfigResponse>,
    m: ConfigMethod,
    path: Seq<char>,
    a: int,
    b: int,
)
    requires
        0 <= a < b < rules.len(),
        spec_rule_matches(rules[a], m, path),
        spec_rule_matches(rules[b], m, path),
    ensures
        spec_first_match(rules, m, path, 0) matches Some(j) && j <= a,
{
    lemma_first_match_characterization(rules, m, path, 0);
    match spec_first_match(rules, m, path, 0) {
        Some(j) => {
            if j > a {
                assert(!spec_rule_matches(rules[a], m, path));
            }
        },
        None => {
            assert(!spec_rule_matches(rules[a], m, path));
        },
    }
}

/// Law: rebinding a key yields the later value.
pub proof fn lemma_last_declaration_wins(
    m: Seq<(Seq<char>, Seq<char>)>,
    k: Seq<char>,
    v1: Seq<char>,
    v2: Seq<char>,
)
    ensures
        spec_lookup(spec_insert(spec_insert(m, k, v1), k, v2), k) == Some(v2),
{
    lemma_lookup_insert_same(spec_insert(m, k, v1), k, v2);
}

/// The key and value that one query piece declares, if it holds a `=`.
pub open spec fn spec_piece_pair(piece: Seq<char>) -> Option<(Seq<char>, Seq<char>)> {
    match spec_find(piece, seq!['=']) {
        Some(e) => Some((piece.take(e), piece.skip(e + 1))),
        None => None,
    }
}

/// Folding pieces none of which declare `key` leaves `key` unchanged.
proof fn lemma_query_fold_absent(
    m0: Seq<(Seq<char>, Seq<char>)>,
    pieces: Seq<Seq<char>>,
    i: int,
    key: Seq<char>,
)
    requires
        forall|l: int|
            i <= l < pieces.len() ==> match spec_piece_pair(#[trigger] pieces[l]) {
                Some(p) => p.0 != key,
                None => true,
            },
    ensures
        spec_lookup(spec_query_fold(m0, pieces, i), key) == spec_lookup(m0, key),
    decreases pieces.len() - i,
{
    if i < 0 || i >= pieces.len() {
    } else {
        let m2 = match spec_find(pieces[i], seq!['=']) {
            Some(e) => spec_insert(m0, pieces[i].take(e), pieces[i].skip(e + 1)),
            None => m0,
        };
        match spec_find(pieces[i], seq!['=']) {
            Some(e) => {
                assert(spec_piece_pair(pieces[i]) == Some(
                    (pieces[i].take(e), pieces[i].skip(e + 1)),
                ));
                lemma_lookup_insert_other(m0, pieces[i].take(e), pieces[i].skip(e + 1), key);
            },
            None => {},
        }
        lemma_query_fold_absent(m2, pieces, i + 1, key);
    }
}

/// Law: among duplicate query keys, the last declaration wins. When the
/// piece at `j` declares a key and no later piece declares the same key,
/// the parsed query binds that key to the value declared at `j`.
pub proof fn lemma_query_last_wins(q: Seq<char>, j: int, key: Seq<char>, val: Seq<char>)
    requires
        0 <= j < spec_split(q, '&').len(),
        spec_piece_pair(spec_split(q, '&')[j]) == Some((key, val)),
        forall|l: int|
            j < l < spec_split(q, '&').len() ==> match spec_piece_pair(
                #[trigger] spec_split(q, '&')[l],
            ) {
                Some(p) => p.0 != key,
                None => true,
            },
    ensures
        spec_lookup(spec_parse_query(q), key) == Some(val),
{
    lemma_query_fold_last(Seq::empty(), spec_split(q, '&'), 0, j, key, val);
}

/// The fold binds `key` to the value declared at `j` when no later
/// piece declares `key` again.
proof fn lemma_query_fold_last(
    m0: Seq<(Seq<char>, Seq<char>)>,
    pieces: Seq<Seq<char>>,
    i: int,
    j: int,
    key: Seq<char>,
    val: Seq<char>,
)
    requires
        0 <= i <= j < pieces.len(),
        spec_piece_pair(pieces[j]) == Some((key, val)),
        forall|l: int|
            j < l < pieces.len() ==> match spec_piece_pair(#[trigger] pieces[l]) {
                Some(p) => p.0 != key,
                None => true,
            },
    ensures
        spec_lookup(spec_query_fold(m0, pieces, i), key) == Some(val),
    decreases pieces.len() - i,
{
    let m2 = match spec_find(pieces[i], seq!['=']) {
        Some(e) => spec_insert(m0, pieces[i].take(e), pieces[i].skip(e + 1)),
        None => m0,
    };
    if i == j {
        match spec_find(pieces[i], seq!['=']) {
            Some(e) => {
                assert(pieces[i].take(e) == key && pieces[i].skip(e + 1) == val);
                lemma_lookup_insert_same(m0, key, val);
            },
            None => {
                assert(spec_piece_pair(pieces[j]) is None);
            },
        }
        lemma_query_fold_absent(m2, pieces, i + 1, key);
    } else {
        lemma_query_fold_last(m2, pieces, i + 1, j, key, val);
    }
}

/// The fold binds `key` to the path value at `j` when no later named
/// segment declares `key` again.
proof fn lemma_bind_fold_last(
    m0: Seq<(Seq<char>, Seq<char>)>,
    segs: Seq<Seq<char>>,
    pieces: Seq<Seq<char>>,
    i: int,
    j: int,
    key: Seq<char>,
)
    requires
        0 <= i <= j < segs.len(),
        spec_is_named(segs[j]),
        spec_inner(segs[j]) == key,
        forall|l: int|
            j < l < segs.len() && spec_is_named(#[trigger] segs[l]) ==> spec_inner(segs[l])
                != key,
    ensures
        spec_lookup(spec_bind_step(m0, segs, pieces, i), key) == Some(pieces[j + 1]),
    decreases segs.len() - i,
{
    let m2 = if spec_is_named(segs[i]) {
        spec_insert(m0, spec_inner(segs[i]), pieces[i + 1])
    } else {
        m0
    };
    if i == j {
        lemma_lookup_insert_same(m0, key, pieces[j + 1]);
        lemma_bind_step_absent(m2, segs, pieces, i + 1, key);
    } else {
        lemma_bind_fold_last(m2, segs, pieces, i + 1, j, key);
    }
}

/// Law: among duplicate route variable names, the last declaration
/// wins. When the named segment at `j` declares a name that no later
/// segment declares again, extraction binds that name to the path value
/// standing at `j`.
pub proof fn lemma_variable_last_wins(source: Seq<char>, path: Seq<char>, j: int, key: Seq<char>)
    requires
        0 <= j < spec_segs(source).len(),
        spec_is_named(spec_segs(source)[j]),
        spec_inner(spec_segs(source)[j]) == key,
        forall|l: int|
            j < l < spec_segs(source).len() && spec_is_named(
                #[trigger] spec_segs(source)[l],
            ) ==> spec_inner(spec_segs(source)[l]) != key,
    ensures
        spec_lookup(spec_extracted(spec_segs(source), path), key) == Some(
            spec_split(path, '/')[j + 1],
        ),
{
    lemma_bind_fold_last(Seq::empty(), spec_segs(source), spec_split(path, '/'), 0, j, key);
}

/// A text without the placeholder opener of a family is left unchanged
/// by that family's substitution pass.
proof fn lemma_subst_pairs_no_opener(
    s: Seq<char>,
    pairs: Seq<(Seq<char>, Seq<char>)>,
    intro: char,
    i: int,
)
    requires
        !contains_seq(s, seq!['{', intro]),
    ensures
        spec_subst_pairs(s, pairs, intro, i) == s,
    decreases pairs.len() - i,
{
    if i < 0 || i >= pairs.len() {
    } else {
        let p = spec_placeholder(intro, pairs[i].0);
        assert forall|o: int| !occurs_at(s, p, o) by {
            if occurs_at(s, p, o) {
                assert(seq!['{', intro] =~= p.take(2));
                lemma_occurrence_of_prefix(s, p, seq!['{', intro], o);
            }
        }
        lemma_replace_all_absent(s, p, pairs[i].1);
        lemma_subst_pairs_no_opener(s, pairs, intro, i + 1);
    }
}

/// A text without `{#` is left unchanged by the reference pass.
proof fn lemma_subst_refs_no_opener(s: Seq<char>, body: JsonVal)
    requires
        !contains_seq(s, seq!['{', '#']),
    ensures
        spec_subst_refs(s, body) == s,
{
    lemma_spec_find_characterization(s, seq!['{', '#']);
    match spec_find(s, seq!['{', '#']) {
        Some(o) => {
            assert(occurs_at(s, seq!['{', '#'], o));
        },
        None => {},
    }
}

/// Law: rendering is the identity on a body template that holds no
/// placeholder token — no `{/`, no `{?`, and no `{#`.
pub proof fn lemma_render_without_placeholders_is_identity(
    s: Seq<char>,
    vars: Seq<(Seq<char>, Seq<char>)>,
    query: Seq<(Seq<char>, Seq<char>)>,
    body: JsonVal,
)
    requires
        !contains_seq(s, seq!['{', '/']),
        !contains_seq(s, seq!['{', '?']),
        !contains_seq(s, seq!['{', '#']),
    ensures
        spec_substitute(s, vars, query, body) == s,
{
    lemma_subst_pairs_no_opener(s, vars, '/', 0);
    lemma_subst_pairs_no_opener(s, query, '?', 0);
    lemma_subst_refs_no_opener(s, body);
}

/// Law: rendering is idempotent once every placeholder is resolved.
/// When one rendering pass leaves no placeholder token behind — every
/// placeholder was bound and no substituted value introduced one —
/// rendering the result again changes nothing.
pub proof fn lemma_render_idempotent_when_resolved(
    s: Seq<char>,
    vars: Seq<(Seq<char>, Seq<char>)>,
    query: Seq<(Seq<char>, Seq<char>)>,
    body: JsonVal,
)
    requires
        !contains_seq(spec_substitute(s, vars, query, body), seq!['{', '/']),
        !contains_seq(spec_substitute(s, vars, query, body), seq!['{', '?']),
        !contains_seq(spec_substitute(s, vars, query, body), seq!['{', '#']),
    ensures
        spec_substitute(spec_substitute(s, vars, query, body), vars, query, body)
            == spec_substitute(s, vars, query, body),
{
    lemma_render_without_placeholders_is_identity(
        spec_substitute(s, vars, query, body),
        vars,
        query,
        body,
    );
}

} // verus!
