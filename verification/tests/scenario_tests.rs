use mockrelay::config::{Config, ConfigMethod, ConfigResponse, ProxyAddr};
use mockrelay::http::{handle_request, substitute_hostname, Action, RequestError};
use mockrelay::json::JsonVal;
use mockrelay::params::substitute;
use mockrelay::response::{ContentType, Response};
use mockrelay::strmap::StrMap;

fn config_with(rules: Vec<ConfigResponse>, host: &str, port: u16) -> Config {
    Config {
        proxy_addr: ProxyAddr::new(host.to_string(), port),
        delay: None,
        responses: rules,
    }
}

fn rule(path: &str, method: ConfigMethod, status: usize, body: JsonVal) -> ConfigResponse {
    ConfigResponse {
        path: path.to_string(),
        method,
        status,
        body,
        enabled: None,
        delay: None,
    }
}

#[test]
fn scenario_mock_path_variable() {
    let body = JsonVal::Obj(vec![("id".to_string(), JsonVal::Str("{/id}".to_string()))]);
    let config = config_with(
        vec![rule("/users/{id}", ConfigMethod::Get, 200, body)],
        "api.internal",
        8080,
    );
    let request = b"GET /users/42 HTTP/1.1\r\nHost: localhost\r\n\r\n";
    match handle_request(request, &config) {
        Ok(Action::Respond(resp)) => {
            assert_eq!(resp.status, 200);
            assert_eq!(resp.body, r#"{"id":"42"}"#);
            assert_eq!(resp.content_type, ContentType::Json);
            let text = resp.as_http();
            assert!(text.starts_with("HTTP/1.1 200\r\n"));
            assert!(text.contains("Content-Type: application/json; charset=utf-8"));
            assert!(text.ends_with("\r\n\r\n{\"id\":\"42\"}"));
        },
        other => panic!("expected a mock response, got {:?}", other),
    }
}

#[test]
fn scenario_forward_rewrites_host() {
    let config = config_with(vec![], "api.internal", 8080);
    let request = b"GET /health HTTP/1.1\r\nHost: localhost:3000\r\n\r\n";
    match handle_request(request, &config) {
        Ok(Action::Forward { host, port, tls, payload }) => {
            assert_eq!(host, "api.internal");
            assert_eq!(port, 8080);
            assert!(!tls);
            assert_eq!(
                payload,
                "GET /health HTTP/1.1\r\nHost: api.internal:8080\r\n\r\n"
            );
        },
        other => panic!("expected a forward, got {:?}", other),
    }
}

#[test]
fn scenario_query_parameter() {
    let body = JsonVal::Obj(vec![("search".to_string(), JsonVal::Str("{?q}".to_string()))]);
    let config = config_with(
        vec![rule("/search", ConfigMethod::Get, 200, body)],
        "api.internal",
        8080,
    );
    let request = b"GET /search?q=hello HTTP/1.1\r\n\r\n";
    match handle_request(request, &config) {
        Ok(Action::Respond(resp)) => {
            assert_eq!(resp.body, r#"{"search":"hello"}"#);
        },
        other => panic!("expected a mock response, got {:?}", other),
    }
}

#[test]
fn scenario_body_field() {
    let body = JsonVal::Obj(vec![(
        "greeting".to_string(),
        JsonVal::Str("hi {#name}".to_string()),
    )]);
    let config = config_with(
        vec![rule("/hello", ConfigMethod::Post, 200, body)],
        "api.internal",
        8080,
    );
    let request = b"POST /hello HTTP/1.1\r\n\r\n{\"name\":\"Kai\"}";
    match handle_request(request, &config) {
        Ok(Action::Respond(resp)) => {
            assert_eq!(resp.body, r#"{"greeting":"hi Kai"}"#);
        },
        other => panic!("expected a mock response, got {:?}", other),
    }
}

#[test]
fn scenario_body_field_absent_leaves_placeholder() {
    let body = JsonVal::Obj(vec![(
        "greeting".to_string(),
        JsonVal::Str("hi {#name}".to_string()),
    )]);
    let config = config_with(
        vec![rule("/hello", ConfigMethod::Post, 200, body)],
        "api.internal",
        8080,
    );
    let request = b"POST /hello HTTP/1.1\r\n\r\n{\"other\":\"x\"}";
    match handle_request(request, &config) {
        Ok(Action::Respond(resp)) => {
            assert_eq!(resp.body, r#"{"greeting":"hi {#name}"}"#);
        },
        other => panic!("expected a mock response, got {:?}", other),
    }
}

#[test]
fn scenario_tls_by_port() {
    let config = config_with(vec![], "secure.internal", 443);
    let request = b"GET /x HTTP/1.1\r\n\r\n";
    match handle_request(request, &config) {
        Ok(Action::Forward { tls, port, .. }) => {
            assert_eq!(port, 443);
            assert!(tls);
        },
        other => panic!("expected a forward, got {:?}", other),
    }

    let config80 = config_with(vec![], "plain.internal", 80);
    match handle_request(request, &config80) {
        Ok(Action::Forward { tls, port, .. }) => {
            assert_eq!(port, 80);
            assert!(!tls);
        },
        other => panic!("expected a forward, got {:?}", other),
    }
}

#[test]
fn rule_order_first_match_wins() {
    let first = JsonVal::Str("first".to_string());
    let second = JsonVal::Str("second".to_string());
    let config = config_with(
        vec![
            rule("/users/{id}", ConfigMethod::Get, 200, first),
            rule("/users/42", ConfigMethod::Get, 201, second),
        ],
        "api.internal",
        8080,
    );
    let request = b"GET /users/42 HTTP/1.1\r\n\r\n";
    match handle_request(request, &config) {
        Ok(Action::Respond(resp)) => {
            assert_eq!(resp.status, 200);
            assert_eq!(resp.body, "\"first\"");
        },
        other => panic!("expected a mock response, got {:?}", other),
    }
}

#[test]
fn disabled_rule_is_skipped() {
    let body = JsonVal::Str("mock".to_string());
    let mut disabled = rule("/x", ConfigMethod::Get, 200, body);
    disabled.enabled = Some(false);
    let config = config_with(vec![disabled], "api.internal", 8080);
    let request = b"GET /x HTTP/1.1\r\n\r\n";
    match handle_request(request, &config) {
        Ok(Action::Forward { .. }) => {},
        other => panic!("expected a forward, got {:?}", other),
    }
}

#[test]
fn method_mismatch_is_skipped() {
    let body = JsonVal::Str("mock".to_string());
    let config = config_with(
        vec![rule("/x", ConfigMethod::Post, 200, body)],
        "api.internal",
        8080,
    );
    let request = b"GET /x HTTP/1.1\r\n\r\n";
    match handle_request(request, &config) {
        Ok(Action::Forward { .. }) => {},
        other => panic!("expected a forward, got {:?}", other),
    }
}

#[test]
fn unsupported_method_is_an_error() {
    let config = config_with(vec![], "api.internal", 8080);
    let request = b"PATCH /x HTTP/1.1\r\n\r\n";
    assert_eq!(
        handle_request(request, &config).unwrap_err(),
        RequestError::UnsupportedMethod
    );
}

#[test]
fn missing_path_is_an_error() {
    let config = config_with(vec![], "api.internal", 8080);
    assert_eq!(
        handle_request(b"GET", &config).unwrap_err(),
        RequestError::MalformedRequest
    );
}

#[test]
fn empty_request_is_an_error() {
    let config = config_with(vec![], "api.internal", 8080);
    assert_eq!(
        handle_request(b"", &config).unwrap_err(),
        RequestError::UnsupportedMethod
    );
}

#[test]
fn plain_text_content_type_for_string_body() {
    let body = JsonVal::Str("hello".to_string());
    let config = config_with(
        vec![rule("/t", ConfigMethod::Get, 200, body)],
        "api.internal",
        8080,
    );
    let request = b"GET /t HTTP/1.1\r\n\r\n";
    match handle_request(request, &config) {
        Ok(Action::Respond(resp)) => {
            assert_eq!(resp.content_type, ContentType::Plain);
            assert!(resp.as_http().contains("Content-Type: text/plain; charset=utf-8"));
        },
        other => panic!("expected a mock response, got {:?}", other),
    }
}

#[test]
fn response_head_is_exact() {
    let resp = Response {
        status: 404,
        body: "hi".to_string(),
        content_type: ContentType::Plain,
    };
    assert_eq!(
        resp.as_http(),
        "HTTP/1.1 404\r\nContent-Type: text/plain; charset=utf-8\r\nContent-Length: 2\r\n\r\nhi"
    );
}

#[test]
fn rendered_json_escapes_strings() {
    let body = JsonVal::Obj(vec![(
        "text".to_string(),
        JsonVal::Str("a\"b\\c\nd".to_string()),
    )]);
    let rendered = mockrelay::json::render_json(&body);
    assert_eq!(rendered, "{\"text\":\"a\\\"b\\\\c\\nd\"}");
}

#[test]
fn rendered_json_all_variants() {
    let v = JsonVal::Arr(vec![
        JsonVal::Null,
        JsonVal::Bool(false),
        JsonVal::Num("3".to_string()),
        JsonVal::Str("s".to_string()),
        JsonVal::Obj(vec![]),
    ]);
    assert_eq!(mockrelay::json::render_json(&v), "[null,false,3,\"s\",{}]");
}

#[test]
fn duplicate_query_keys_last_wins() {
    let path = b"/s?a=1&a=2";
    let query_start = path.iter().position(|&c| c == b'?').unwrap();
    let result = mockrelay::params::parse_query(path, query_start);
    assert_eq!(result.len(), 1);
    assert_eq!(result.get("a").unwrap().as_str(), "2");
}

#[test]
fn duplicate_path_variables_last_wins() {
    let variables = mockrelay::template::PathVariables::new("/{x}/{x}");
    let result = mockrelay::template::extract_variables(&variables, "/1/2").unwrap();
    assert_eq!(result.len(), 1);
    assert_eq!(result.get("x").unwrap().as_str(), "2");
}

#[test]
fn substitution_without_placeholders_is_identity() {
    let mut vars = StrMap::new();
    vars.insert("id".to_string(), "42".to_string());
    let query = StrMap::new();
    let body = JsonVal::Null;
    let mut text = r#"{"plain":"value"}"#.to_string();
    substitute(&mut text, &vars, &query, &body);
    assert_eq!(text, r#"{"plain":"value"}"#);
}

#[test]
fn substitution_twice_is_idempotent_when_resolved() {
    let mut vars = StrMap::new();
    vars.insert("id".to_string(), "42".to_string());
    let query = StrMap::new();
    let body = JsonVal::Null;
    let mut text = r#"{"id":"{/id}"}"#.to_string();
    substitute(&mut text, &vars, &query, &body);
    let once = text.clone();
    substitute(&mut text, &vars, &query, &body);
    assert_eq!(text, once);
}

#[test]
fn host_rewrite_leaves_other_lines() {
    let rewritten = substitute_hostname(
        "POST /a HTTP/1.1\r\nAccept: */*\r\nHost: old:1\r\n\r\nbody",
        "new.host",
        9000,
    );
    assert_eq!(
        rewritten,
        "POST /a HTTP/1.1\r\nAccept: */*\r\nHost: new.host:9000\r\n\r\nbody"
    );
}

#[test]
fn trailing_slash_route_matches_bare_path() {
    let variables = mockrelay::template::PathVariables::new("/foo/");
    assert!(mockrelay::template::extract_variables(&variables, "/foo").is_ok());
    assert!(mockrelay::template::extract_variables(&variables, "/foo/").is_err());
}

#[test]
fn scenario_all_three_families_through_pipeline() {
    let body = JsonVal::Obj(vec![
        ("id".to_string(), JsonVal::Str("{/id}".to_string())),
        ("search".to_string(), JsonVal::Str("{?q}".to_string())),
        ("user".to_string(), JsonVal::Str("{#name}".to_string())),
    ]);
    let config = config_with(
        vec![rule("/users/{id}", ConfigMethod::Post, 201, body)],
        "api.internal",
        8080,
    );
    let request = b"POST /users/7?q=z HTTP/1.1\r\n\r\n{\"name\":\"kai\"}";
    match handle_request(request, &config) {
        Ok(Action::Respond(resp)) => {
            assert_eq!(resp.status, 201);
            assert_eq!(resp.body, r#"{"id":"7","search":"z","user":"kai"}"#);
        },
        other => panic!("expected a mock response, got {:?}", other),
    }
}

#[test]
fn empty_query_after_question_mark() {
    let path = b"/x?";
    let result = mockrelay::params::parse_query(path, 2);
    assert!(result.is_empty());
}

#[test]
fn empty_query_pieces_are_skipped() {
    let path = b"/s?a=1&&b=2";
    let query_start = path.iter().position(|&c| c == b'?').unwrap();
    let result = mockrelay::params::parse_query(path, query_start);
    assert_eq!(result.len(), 2);
    assert_eq!(result.get("a").unwrap().as_str(), "1");
    assert_eq!(result.get("b").unwrap().as_str(), "2");
}

#[test]
fn non_ascii_path_segments_match() {
    let variables = mockrelay::template::PathVariables::new("/caf\u{e9}/{x}");
    let result = mockrelay::template::extract_variables(&variables, "/caf\u{e9}/42").unwrap();
    assert_eq!(result.len(), 1);
    assert_eq!(result.get("x").unwrap().as_str(), "42");
}

#[test]
fn root_route_matches_root_path() {
    let variables = mockrelay::template::PathVariables::new("/");
    assert_eq!(variables.match_pattern, "^/$");
    assert!(mockrelay::template::extract_variables(&variables, "/").is_ok());
    assert!(mockrelay::template::extract_variables(&variables, "/x").is_err());
}
