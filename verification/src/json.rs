use vstd::prelude::*;
use vstd::string::StrSliceExecFns;
use vstd::string::StringExecFns;

verus! {

broadcast use vstd::std_specs::vec::axiom_vec_index_decreases;

/// A JSON document, with numbers kept in their textual form so that
/// rendering a value back to text needs no numeric formatting.
#[derive(Debug, PartialEq)]
pub enum JsonVal {
    Null,
    Bool(bool),
    Num(String),
    Str(String),
    Arr(Vec<JsonVal>),
    Obj(Vec<(String, JsonVal)>),
}

/// The character for one hexadecimal digit.
pub open spec fn hex_char(d: nat) -> char {
    if d < 10 {
        crate::text::digit_char(d)
    } else if d == 10 {
        'a'
    } else if d == 11 {
        'b'
    } else if d == 12 {
        'c'
    } else if d == 13 {
        'd'
    } else if d == 14 {
        'e'
    } else {
        'f'
    }
}

/// How one character appears inside a rendered JSON string: quote and
/// backslash get a backslash escape, control characters get their short
/// escape or a `\u00..` form, everything else stands for itself.
pub open spec fn esc_char(c: char) -> Seq<char> {
    if c == '"' {
        seq!['\\', '"']
    } else if c == '\\' {
        seq!['\\', '\\']
    } else if c == '\u{8}' {
        seq!['\\', 'b']
    } else if c == '\t' {
        seq!['\\', 't']
    } else if c == '\n' {
        seq!['\\', 'n']
    } else if c == '\u{c}' {
        seq!['\\', 'f']
    } else if c == '\r' {
        seq!['\\', 'r']
    } else if (c as u32) < 32 {
        seq!['\\', 'u', '0', '0', hex_char((c as u32 / 16) as nat), hex_char(
            (c as u32 % 16) as nat,
        )]
    } else {
        seq![c]
    }
}

/// The body of a rendered JSON string: each character escaped in turn.
pub open spec fn spec_escape(s: Seq<char>) -> Seq<char>
    decreases s.len(),
{
    if s.len() == 0 {
        Seq::empty()
    } else {
        spec_escape(s.drop_last()) + esc_char(s.last())
    }
}

fn hex_str(d: u32) -> (r: &'static str)
    requires
        d < 16,
    ensures
        r@ =~= seq![hex_char(d as nat)],
{
    proof {
        reveal_strlit("0");
        reveal_strlit("1");
        reveal_strlit("2");
        reveal_strlit("3");
        reveal_strlit("4");
        reveal_strlit("5");
        reveal_strlit("6");
        reveal_strlit("7");
        reveal_strlit("8");
        reveal_strlit("9");
        reveal_strlit("a");
        reveal_strlit("b");
        reveal_strlit("c");
        reveal_strlit("d");
        reveal_strlit("e");
        reveal_strlit("f");
    }
    match d {
        0 => "0",
        1 => "1",
        2 => "2",
        3 => "3",
        4 => "4",
        5 => "5",
        6 => "6",
        7 => "7",
        8 => "8",
        9 => "9",
        10 => "a",
        11 => "b",
        12 => "c",
        13 => "d",
        14 => "e",
        _ => "f",
    }
}

/// Escapes the characters of `s` as they appear inside a JSON string.
pub fn escape_json(s: &str) -> (r: String)
    ensures
        r@ == spec_escape(s@),
{
    let len = s.unicode_len();
    let mut out = String::new();
    let mut i: usize = 0;
    proof {
        assert(s@.take(0) =~= Seq::<char>::empty());
    }
    while i < len
        invariant
            i <= len,
            len == s@.len(),
            out@ == spec_escape(s@.take(i as int)),
        decreases len - i,
    {
        let c = s.get_char(i);
        proof {
            reveal_strlit("\\\"");
            reveal_strlit("\\\\");
            reveal_strlit("\\b");
            reveal_strlit("\\t");
            reveal_strlit("\\n");
            reveal_strlit("\\f");
            reveal_strlit("\\r");
            reveal_strlit("\\u00");
        }
        if c == '"' {
            out.append("\\\"");
        } else if c == '\\' {
            out.append("\\\\");
        } else if c == '\u{8}' {
            out.append("\\b");
        } else if c == '\t' {
            out.append("\\t");
        } else if c == '\n' {
            out.append("\\n");
        } else if c == '\u{c}' {
            out.append("\\f");
        } else if c == '\r' {
            out.append("\\r");
        } else if (c as u32) < 32 {
            out.append("\\u00");
            out.append(hex_str(c as u32 / 16));
            out.append(hex_str(c as u32 % 16));
        } else {
            let piece = s.substring_char(i, i + 1);
            proof {
                assert(piece@ =~= seq![s@[i as int]]);
            }
            out.append(piece);
        }
        proof {
            assert(s@.take(i + 1).drop_last() =~= s@.take(i as int));
            assert(s@.take(i + 1).last() == s@[i as int]);
            assert(out@ =~= spec_escape(s@.take(i + 1)));
        }
        i += 1;
    }
    proof {
        assert(s@.take(len as int) =~= s@);
    }
    out
}

/// The text of a JSON value, in the usual compact form: no added
/// whitespace, object fields in the order in which the value holds them.
pub open spec fn spec_render(v: JsonVal) -> Seq<char>
    decreases v, 1int,
{
    match v {
        JsonVal::Null => "null"@,
        JsonVal::Bool(b) => if b {
            "true"@
        } else {
            "false"@
        },
        JsonVal::Num(s) => s@,
        JsonVal::Str(s) => seq!['"'] + spec_escape(s@) + seq!['"'],
        JsonVal::Arr(items) => seq!['['] + spec_render_items(items, 0) + seq![']'],
        JsonVal::Obj(fields) => seq!['{'] + spec_render_fields(fields, 0) + seq!['}'],
    }
}

/// The rendered elements of an array from index `i` on, comma-separated.
pub open spec fn spec_render_items(items: Vec<JsonVal>, i: int) -> Seq<char>
    decreases items, 0int, items@.len() - i,
{
    if i < 0 || i >= items@.len() {
        Seq::empty()
    } else {
        let sep: Seq<char> = if i + 1 < items@.len() {
            seq![',']
        } else {
            Seq::empty()
        };
        spec_render(items@[i]) + sep + spec_render_items(items, i + 1)
    }
}

/// The rendered fields of an object from index `i` on, comma-separated,
/// each as a quoted escaped key, a colon, and the rendered value.
pub open spec fn spec_render_fields(fields: Vec<(String, JsonVal)>, i: int) -> Seq<char>
    decreases fields, 0int, fields@.len() - i,
{
    if i < 0 || i >= fields@.len() {
        Seq::empty()
    } else {
        let sep: Seq<char> = if i + 1 < fields@.len() {
            seq![',']
        } else {
            Seq::empty()
        };
        seq!['"'] + spec_escape(fields@[i].0@) + seq!['"', ':'] + spec_render(fields@[i].1) + sep
            + spec_render_fields(fields, i + 1)
    }
}

/// Renders a JSON value to its text.
pub fn render_json(v: &JsonVal) -> (r: String)
    ensures
        r@ == spec_render(*v),
    decreases *v, 1int,
{
    proof {
        reveal_strlit("null");
        reveal_strlit("true");
        reveal_strlit("false");
        reveal_strlit("[");
        reveal_strlit("]");
        reveal_strlit("{");
        reveal_strlit("}");
        reveal_strlit(",");
        reveal_strlit("\"");
        reveal_strlit("\":");
    }
    match v {
        JsonVal::Null => "null".to_owned(),
        JsonVal::Bool(b) => if *b {
            "true".to_owned()
        } else {
            "false".to_owned()
        },
        JsonVal::Num(s) => s.clone(),
        JsonVal::Str(s) => {
            let mut out = String::from_str("\"");
            out.append(escape_json(s.as_str()).as_str());
            out.append("\"");
            proof {
                assert(out@ =~= spec_render(*v));
            }
            out
        },
        JsonVal::Arr(items) => {
            let mut out = String::from_str("[");
            let n = items.len();
            let mut j: usize = 0;
            while j < n
                invariant
                    j <= n,
                    n == items@.len(),
                    v is Arr,
                    items == v->Arr_0,
                    spec_render(*v) == out@ + spec_render_items(*items, j as int) + seq![']'],
                decreases n - j,
            {
                proof {
                    reveal_strlit(",");
                    assert(decreases_to!(*v => items@[j as int]));
                }
                let ghost sep: Seq<char> = if j + 1 < n {
                    seq![',']
                } else {
                    Seq::empty()
                };
                proof {
                    assert(spec_render_items(*items, j as int) == spec_render(items@[j as int])
                        + sep + spec_render_items(*items, j as int + 1));
                }
                let piece = render_json(&items[j]);
                out.append(piece.as_str());
                if j + 1 < n {
                    out.append(",");
                }
                j += 1;
            }
            proof {
                reveal_strlit("]");
            }
            out.append("]");
            proof {
                assert(out@ =~= spec_render(*v));
            }
            out
        },
        JsonVal::Obj(fields) => {
            let mut out = String::from_str("{");
            let n = fields.len();
            let mut j: usize = 0;
            while j < n
                invariant
                    j <= n,
                    n == fields@.len(),
                    v is Obj,
                    fields == v->Obj_0,
                    spec_render(*v) == out@ + spec_render_fields(*fields, j as int) + seq!['}'],
                decreases n - j,
            {
                proof {
                    reveal_strlit("\"");
                    reveal_strlit("\":");
                    reveal_strlit(",");
                    assert(decreases_to!(*v => fields@[j as int].1));
                }
                out.append("\"");
                out.append(escape_json(fields[j].0.as_str()).as_str());
                out.append("\":");
                let piece = render_json(&fields[j].1);
                out.append(piece.as_str());
                if j + 1 < n {
                    out.append(",");
                }
                j += 1;
            }
            out.append("}");
            proof {
                assert(out@ =~= spec_render(*v));
            }
            out
        },
    }
}

/// The value under one key of an object: the first field with that name.
pub open spec fn spec_field(fields: Seq<(String, JsonVal)>, key: Seq<char>) -> Option<JsonVal>
    decreases fields.len(),
{
    if fields.len() == 0 {
        None
    } else if fields[0].0@ == key {
        Some(fields[0].1)
    } else {
        spec_field(fields.drop_first(), key)
    }
}

/// Walks `v` along the field names `parts[i..]`; every step requires an
/// object holding the named field, anything else loses the trail.
pub open spec fn spec_walk(v: JsonVal, parts: Seq<Seq<char>>, i: int) -> Option<JsonVal>
    decreases parts.len() - i,
{
    if i < 0 || i >= parts.len() {
        Some(v)
    } else {
        match v {
            JsonVal::Obj(fields) => match spec_field(fields@, parts[i]) {
                Some(child) => spec_walk(child, parts, i + 1),
                None => None,
            },
            _ => None,
        }
    }
}

/// What a `{#key.sub}` reference yields against a request body: the walk
/// along the dot-separated parts, a bare string for string values, the
/// rendered text for other values, and nothing for null or a lost trail.
pub open spec fn spec_resolve(body: JsonVal, key: Seq<char>) -> Option<Seq<char>> {
    match spec_walk(body, crate::text::spec_split(key, '.'), 0) {
        None => None,
        Some(v) => match v {
            JsonVal::Null => None,
            JsonVal::Str(s) => Some(s@),
            other => Some(spec_render(other)),
        },
    }
}

/// The first field of `fields` named `part`, if any.
fn find_field<'a>(fields: &'a Vec<(String, JsonVal)>, part: &str) -> (r: Option<&'a JsonVal>)
    ensures
        match r {
            Some(child) => spec_field(fields@, part@) == Some(*child),
            None => spec_field(fields@, part@) is None,
        },
{
    let m = fields.len();
    let mut k: usize = 0;
    proof {
        assert(fields@.skip(0) =~= fields@);
    }
    while k < m
        invariant
            k <= m,
            m == fields@.len(),
            spec_field(fields@, part@) == spec_field(fields@.skip(k as int), part@),
        decreases m - k,
    {
        proof {
            assert(fields@.skip(k as int)[0] == fields@[k as int]);
            assert(fields@.skip(k as int).drop_first() =~= fields@.skip(k + 1));
        }
        if crate::text::str_eq(fields[k].0.as_str(), part) {
            return Some(&fields[k].1);
        }
        k += 1;
    }
    proof {
        assert(fields@.skip(m as int).len() == 0);
    }
    None
}

/// Resolves a dot-separated field path against a request body.
pub fn resolve_body_field(body: &JsonVal, key: &str) -> (r: Option<String>)
    ensures
        match r {
            Some(s) => spec_resolve(*body, key@) == Some(s@),
            None => spec_resolve(*body, key@) is None,
        },
{
    proof {
        reveal_strlit(".");
    }
    let parts = crate::text::split_str(key, ".");
    let ghost pseq = parts.deep_view();
    proof {
        assert(pseq == crate::text::spec_split(key@, '.'));
    }
    let n = parts.len();
    let mut cur: &JsonVal = body;
    let mut idx: usize = 0;
    while idx < n
        invariant
            idx <= n,
            n == pseq.len(),
            pseq == parts.deep_view(),
            pseq == crate::text::spec_split(key@, '.'),
            spec_walk(*body, pseq, 0) == spec_walk(*cur, pseq, idx as int),
        decreases n - idx,
    {
        let ghost prev = *cur;
        proof {
            assert(parts@[idx as int]@ == pseq[idx as int]);
        }
        match cur {
            JsonVal::Obj(fields) => {
                match find_field(fields, parts[idx].as_str()) {
                    Some(child) => {
                        proof {
                            assert(spec_walk(prev, pseq, idx as int) == spec_walk(
                                *child,
                                pseq,
                                idx + 1,
                            ));
                        }
                        cur = child;
                    },
                    None => {
                        proof {
                            assert(spec_walk(prev, pseq, idx as int) is None);
                        }
                        return None;
                    },
                }
            },
            _ => {
                proof {
                    assert(spec_walk(prev, pseq, idx as int) is None);
                }
                return None;
            },
        }
        idx += 1;
    }
    proof {
        assert(spec_walk(*cur, pseq, n as int) == Some(*cur));
    }
    match cur {
        JsonVal::Null => None,
        JsonVal::Str(s) => Some(s.clone()),
        other => {
            let rendered = render_json(other);
            Some(rendered)
        },
    }
}

/// serde_json's value type, declared so that the wrappers below may
/// mention it in their signatures.
#[verifier::external_type_specification]
#[verifier::external_body]
pub struct ExSerdeValue(serde_json::Value);

/// The JSON document that a byte sequence encodes, as serde_json reads
/// it: a function of the bytes alone; bytes that do not hold valid JSON
/// map to the null value.
pub uninterp spec fn json_of(bytes: Seq<u8>) -> JsonVal;

/// Relies on serde_json::Value: one arm per variant, moving each field
/// into the library's own value type; object fields keep the order in
/// which serde_json's map iterates them, numbers keep their rendered text.
#[verifier::external_body]
fn value_to_json(v: &serde_json::Value) -> JsonVal {
    match v {
        serde_json::Value::Null => JsonVal::Null,
        serde_json::Value::Bool(b) => JsonVal::Bool(*b),
        serde_json::Value::Number(n) => JsonVal::Num(n.to_string()),
        serde_json::Value::String(s) => JsonVal::Str(s.clone()),
        serde_json::Value::Array(a) => JsonVal::Arr(a.iter().map(|x| value_to_json(x)).collect()),
        serde_json::Value::Object(o) => JsonVal::Obj(
            o.iter().map(|(k, x)| (k.clone(), value_to_json(x))).collect(),
        ),
    }
}

/// Relies on serde_json::from_slice: decodes the JSON document held by
/// `bytes`, a deterministic function of the bytes alone; a decode error
/// becomes the null value, as for a request that carries no usable body.
#[verifier::external_body]
pub(crate) fn parse_json_bytes(bytes: &[u8]) -> (r: JsonVal)
    ensures
        r == json_of(bytes@),
{
    match serde_json::from_slice::<serde_json::Value>(bytes) {
        Ok(v) => value_to_json(&v),
        Err(_) => JsonVal::Null,
    }
}

} // verus!
