use vstd::prelude::*;
use vstd::string::StrSliceExecFns;
use vstd::string::StringExecFns;
use crate::bytes::{lossy_of, utf8_lossy, bytes_find_from};
use crate::config::{Config, ConfigMethod, ConfigResponse, spec_method_of};
use crate::json::{JsonVal, json_of};
use crate::params::{spec_parse_query, parse_query, parse_body};
use crate::response::Response;
use crate::strmap::StrMap;
use crate::template::{
    PathVariables,
    extract_variables,
    spec_segs,
    spec_tmpl_matches,
    spec_extracted,
};
use crate::text::{
    spec_find,
    spec_split,
    spec_dec,
    is_prefix_of,
    split_str,
    str_starts_with,
    dec_usize,
    lemma_spec_find_characterization,
};

verus! {

/// Why a raw request could not be served at all.
#[derive(Debug, PartialEq, Eq, Structural, Clone, Copy)]
pub enum RequestError {
    /// The request line has no path token.
    MalformedRequest,
    /// The method token is not GET, POST, PUT or DELETE.
    UnsupportedMethod,
}

impl RequestError {
    /// A short account of the failure, for logs.
    pub fn describe(&self) -> (r: &'static str)
        ensures
            *self is MalformedRequest ==> r@ == "missing path"@,
            *self is UnsupportedMethod ==> r@ == "unsupported HTTP method"@,
    {
        match self {
            RequestError::MalformedRequest => "missing path",
            RequestError::UnsupportedMethod => "unsupported HTTP method",
        }
    }
}

/// The method token of a raw request: the bytes before the first space,
/// or all of them when no space occurs.
pub open spec fn spec_method_token(c: Seq<u8>) -> Seq<u8> {
    match spec_find(c, seq![32u8]) {
        None => c,
        Some(i) => c.take(i),
    }
}

/// The path token of a raw request: the bytes between the first space
/// and the next one, if a first space exists at all.
pub open spec fn spec_path_token(c: Seq<u8>) -> Option<Seq<u8>> {
    match spec_find(c, seq![32u8]) {
        None => None,
        Some(i) => {
            let rest = c.skip(i + 1);
            match spec_find(rest, seq![32u8]) {
                None => Some(rest),
                Some(j) => Some(rest.take(j)),
            }
        },
    }
}

/// The path part of a full path token: what stands before the first `?`.
pub open spec fn spec_path_part(full: Seq<u8>) -> Seq<u8> {
    match spec_find(full, seq![63u8]) {
        None => full,
        Some(q) => full.take(q),
    }
}

/// The query parameters of a full path token: what follows the first
/// `?`, parsed; without a `?` there are none.
pub open spec fn spec_query_of(full: Seq<u8>) -> Seq<(Seq<char>, Seq<char>)> {
    match spec_find(full, seq![63u8]) {
        None => Seq::empty(),
        Some(q) => spec_parse_query(lossy_of(full.skip(q + 1))),
    }
}

/// The request body a raw request carries: the bytes after the first
/// blank line read as JSON, null when absent or unreadable.
pub open spec fn spec_body_of(c: Seq<u8>) -> JsonVal {
    match spec_find(c, seq![13u8, 10u8, 13u8, 10u8]) {
        Some(i) => json_of(c.skip(i + 4)),
        None => JsonVal::Null,
    }
}

/// Whether one rule answers a request: it is enabled, declares the
/// request's method, and its route structurally matches the path.
pub open spec fn spec_rule_matches(rule: ConfigResponse, m: ConfigMethod, path: Seq<char>) -> bool {
    rule.spec_is_valid(m) && spec_tmpl_matches(spec_segs(rule.path@), path)
}

/// The first rule from index `i` on that answers the request, if any:
/// rule order decides, never specificity.
pub open spec fn spec_first_match(
    rules: Seq<ConfigResponse>,
    m: ConfigMethod,
    path: Seq<char>,
    i: int,
) -> Option<int>
    decreases rules.len() - i,
{
    if i < 0 || i >= rules.len() {
        None
    } else if spec_rule_matches(rules[i], m, path) {
        Some(i)
    } else {
        spec_first_match(rules, m, path, i + 1)
    }
}

/// Walks the rule list in order and returns the first enabled rule
/// whose method and route match, together with the extracted bindings.
pub fn match_rule(responses: &Vec<ConfigResponse>, m: ConfigMethod, path: &str) -> (r: Option<
    (usize, StrMap),
>)
    ensures
        match r {
            Some((i, vars)) => {
                &&& i < responses@.len()
                &&& spec_first_match(responses@, m, path@, 0) == Some(i as int)
                &&& vars@ == spec_extracted(spec_segs(responses@[i as int].path@), path@)
            },
            None => spec_first_match(responses@, m, path@, 0) is None,
        },
{
    let n = responses.len();
    let mut i: usize = 0;
    while i < n
        invariant
            i <= n,
            n == responses@.len(),
            spec_first_match(responses@, m, path@, 0) == spec_first_match(
                responses@,
                m,
                path@,
                i as int,
            ),
        decreases n - i,
    {
        let rule = &responses[i];
        if rule.is_valid(m) {
            let pv = PathVariables::new(rule.path.as_str());
            match extract_variables(&pv, path) {
                Ok(vars) => {
                    proof {
                        assert(spec_rule_matches(responses@[i as int], m, path@));
                        assert(spec_first_match(responses@, m, path@, i as int) == Some(
                            i as int,
                        ));
                    }
                    return Some((i, vars));
                },
                Err(_) => {
                    proof {
                        assert(!spec_rule_matches(responses@[i as int], m, path@));
                    }
                },
            }
        } else {
            proof {
                assert(!spec_rule_matches(responses@[i as int], m, path@));
            }
        }
        i += 1;
    }
    proof {
        assert(spec_first_match(responses@, m, path@, n as int) is None);
    }
    None
}

/// The rewritten Host header line.
pub open spec fn spec_host_line(host: Seq<char>, port: u16) -> Seq<char> {
    "Host: "@ + host + seq![':'] + spec_dec(port as nat)
}

/// One forwarded line: without its trailing `\r`, and replaced wholesale
/// by the new Host line when it opens with `Host:`.
pub open spec fn spec_rewrite_line(line: Seq<char>, host: Seq<char>, port: u16) -> Seq<char> {
    let l = if line.len() > 0 && line.last() == '\r' {
        line.drop_last()
    } else {
        line
    };
    if is_prefix_of(l, "Host:"@) {
        spec_host_line(host, port)
    } else {
        l
    }
}

/// The forwarded request text from line `i` on, each line re-terminated
/// with `\r\n`; the final line keeps no terminator of its own.
pub open spec fn spec_rewrite_lines(
    lines: Seq<Seq<char>>,
    host: Seq<char>,
    port: u16,
    i: int,
) -> Seq<char>
    decreases lines.len() - i,
{
    if i < 0 || i >= lines.len() {
        Seq::empty()
    } else if i == lines.len() - 1 {
        spec_rewrite_line(lines[i], host, port)
    } else {
        spec_rewrite_line(lines[i], host, port) + seq!['\r', '\n'] + spec_rewrite_lines(
            lines,
            host,
            port,
            i + 1,
        )
    }
}

/// The request text as it goes upstream: split on `\n`, every line that
/// opens with `Host:` replaced by one naming the upstream, all lines
/// re-terminated with `\r\n`.
pub open spec fn spec_substitute_hostname(buf: Seq<char>, host: Seq<char>, port: u16) -> Seq<
    char,
> {
    spec_rewrite_lines(spec_split(buf, '\n'), host, port, 0)
}

/// Rewrites every `Host:` line of a forwarded request to name the
/// upstream as `host:port`.
pub fn substitute_hostname(buf: &str, host: &str, port: u16) -> (r: String)
    ensures
        r@ == spec_substitute_hostname(buf@, host@, port),
{
    proof {
        reveal_strlit("\n");
        reveal_strlit("\r");
        reveal_strlit("\r\n");
        reveal_strlit("Host:");
        reveal_strlit("Host: ");
        reveal_strlit(":");
    }
    let lines = split_str(buf, "\n");
    let ghost linesv = lines.deep_view();
    proof {
        assert("\n"@ =~= seq!['\n']);
        assert(linesv == spec_split(buf@, '\n'));
    }
    let n = lines.len();
    let mut out = String::new();
    let mut i: usize = 0;
    proof {
        assert(out@ + spec_rewrite_lines(linesv, host@, port, 0) =~= spec_rewrite_lines(
            linesv,
            host@,
            port,
            0,
        ));
    }
    while i < n
        invariant
            i <= n,
            n == linesv.len(),
            n >= 1,
            linesv == lines.deep_view(),
            spec_rewrite_lines(linesv, host@, port, 0) == out@ + spec_rewrite_lines(
                linesv,
                host@,
                port,
                i as int,
            ),
        decreases n - i,
    {
        proof {
            reveal_strlit("\r\n");
            reveal_strlit("Host:");
            reveal_strlit("Host: ");
            reveal_strlit(":");
            assert(lines@[i as int]@ == linesv[i as int]);
        }
        let line = &lines[i];
        let l_len = line.as_str().unicode_len();
        let stripped = if l_len > 0 && line.as_str().get_char(l_len - 1) == '\r' {
            let t = line.as_str().substring_char(0, l_len - 1);
            proof {
                assert(t@ =~= linesv[i as int].drop_last());
            }
            t
        } else {
            line.as_str()
        };
        if str_starts_with(stripped, "Host:") {
            out.append("Host: ");
            out.append(host);
            out.append(":");
            out.append(dec_usize(port as usize).as_str());
            proof {
                assert(":"@ =~= seq![':']);
            }
        } else {
            out.append(stripped);
        }
        if i + 1 < n {
            out.append("\r\n");
            proof {
                assert("\r\n"@ =~= seq!['\r', '\n']);
            }
        }
        i += 1;
    }
    proof {
        assert(spec_rewrite_lines(linesv, host@, port, n as int) =~= Seq::<char>::empty());
        assert(out@ =~= spec_rewrite_lines(linesv, host@, port, 0));
    }
    out
}

/// What one request leads to: a mock response to write back, or a
/// forward of the rewritten bytes to the upstream.
#[derive(Debug)]
pub enum Action {
    /// Write this response back to the client.
    Respond(Response),
    /// Connect to `host:port` — through TLS exactly when the port is
    /// 443 — write `payload`, and relay the upstream's bytes back.
    Forward { host: String, port: u16, tls: bool, payload: String },
}

/// Classifies one raw request under a configuration and renders what
/// should happen: the request line is parsed, the rule list is walked
/// in order, a matching rule renders its response, and anything else
/// becomes a forward with the Host line rewritten.
pub fn handle_request(content: &[u8], config: &Config) -> (r: Result<Action, RequestError>)
    ensures
        ({
            let tok = spec_method_token(content@);
            match spec_method_of(tok) {
                None => r == Err::<Action, RequestError>(RequestError::UnsupportedMethod),
                Some(m) => match spec_path_token(content@) {
                    None => r == Err::<Action, RequestError>(RequestError::MalformedRequest),
                    Some(full) => {
                        let path = lossy_of(spec_path_part(full));
                        match spec_first_match(config.responses@, m, path, 0) {
                            Some(i) => r matches Ok(Action::Respond(resp)) && {
                                &&& resp.status == config.responses@[i].status
                                &&& resp.body@ == crate::params::spec_substitute(
                                    crate::json::spec_render(config.responses@[i].body),
                                    spec_extracted(
                                        spec_segs(config.responses@[i].path@),
                                        path,
                                    ),
                                    spec_query_of(full),
                                    spec_body_of(content@),
                                )
                                &&& resp.content_type
                                    == crate::response::ContentType::spec_of_value(
                                    config.responses@[i].body,
                                )
                            },
                            None => r matches Ok(
                                Action::Forward { host, port, tls, payload },
                            ) && {
                                &&& host@ == config.proxy_addr.host@
                                &&& port == config.proxy_addr.port
                                &&& tls == (config.proxy_addr.port == 443)
                                &&& payload@ == spec_substitute_hostname(
                                    lossy_of(content@),
                                    config.proxy_addr.host@,
                                    config.proxy_addr.port,
                                )
                            },
                        }
                    },
                },
            }
        }),
{
    let c_len = content.len();
    let mut space: Vec<u8> = Vec::new();
    space.push(32);
    proof {
        assert(space@ =~= seq![32u8]);
        assert(content@.skip(0) =~= content@);
    }
    let first_space = bytes_find_from(content, space.as_slice(), 0);
    let tok1: &[u8] = match first_space {
        None => content,
        Some(i) => {
            proof {
                lemma_spec_find_characterization(content@, space@);
            }
            let t = &content[0..i];
            proof {
                assert(t@ =~= content@.take(i as int));
            }
            t
        },
    };
    proof {
        assert(tok1@ == spec_method_token(content@));
    }
    let m = match ConfigMethod::from_bytes(tok1) {
        Some(m) => m,
        None => {
            return Err(RequestError::UnsupportedMethod);
        },
    };
    let i = match first_space {
        Some(i) => i,
        None => {
            return Err(RequestError::MalformedRequest);
        },
    };
    proof {
        lemma_spec_find_characterization(content@, space@);
        assert(crate::text::occurs_at(content@, space@, i as int));
    }
    let rest = &content[i + 1..c_len];
    proof {
        assert(rest@ =~= content@.skip(i + 1));
        assert(rest@.skip(0) =~= rest@);
    }
    let full_path: &[u8] = match bytes_find_from(rest, space.as_slice(), 0) {
        None => rest,
        Some(j) => {
            proof {
                lemma_spec_find_characterization(rest@, space@);
            }
            let t = &rest[0..j];
            proof {
                assert(t@ =~= rest@.take(j as int));
            }
            t
        },
    };
    let ghost full = spec_path_token(content@)->Some_0;
    proof {
        assert(full_path@ == full);
    }
    let mut question: Vec<u8> = Vec::new();
    question.push(63);
    proof {
        assert(question@ =~= seq![63u8]);
        assert(full_path@.skip(0) =~= full_path@);
    }
    let fp_len = full_path.len();
    let qpos: usize = match bytes_find_from(full_path, question.as_slice(), 0) {
        None => fp_len,
        Some(q) => {
            proof {
                lemma_spec_find_characterization(full_path@, question@);
                assert(crate::text::occurs_at(full_path@, question@, q as int));
            }
            q
        },
    };
    let path_b = &full_path[0..qpos];
    proof {
        assert(path_b@ =~= full_path@.take(qpos as int));
        assert(path_b@ == spec_path_part(full));
    }
    let path = utf8_lossy(path_b);
    let query = parse_query(full_path, qpos);
    proof {
        assert(query@ == spec_query_of(full));
    }
    let body_json = parse_body(content);
    match match_rule(&config.responses, m, path.as_str()) {
        Some((idx, vars)) => {
            let resp = Response::try_new(&config.responses[idx], &vars, &query, &body_json);
            Ok(Action::Respond(resp))
        },
        None => {
            let buf = utf8_lossy(content);
            let payload = substitute_hostname(
                buf.as_str(),
                config.proxy_addr.host.as_str(),
                config.proxy_addr.port,
            );
            let tls = config.proxy_addr.port == 443;
            Ok(
                Action::Forward {
                    host: config.proxy_addr.host.clone(),
                    port: config.proxy_addr.port,
                    tls,
                    payload,
                },
            )
        },
    }
}

} // verus!
