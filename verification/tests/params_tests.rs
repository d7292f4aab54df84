use mockrelay::json::JsonVal;
use mockrelay::params::{parse_query, parse_body, substitute};
use mockrelay::json::resolve_body_field;
use mockrelay::strmap::StrMap;

// parse_query tests

#[test]
fn test_parse_query_single_param() {
    let path = b"/users/42?q=hello";
    let query_start = path.iter().position(|&c| c == b'?').unwrap();
    let result = parse_query(path, query_start);
    assert_eq!(result.len(), 1);
    assert_eq!(result.get("q").unwrap().as_str(), "hello");
}

#[test]
fn test_parse_query_multiple_params() {
    let path = b"/search?q=rust&page=2&sort=desc";
    let query_start = path.iter().position(|&c| c == b'?').unwrap();
    let result = parse_query(path, query_start);
    assert_eq!(result.len(), 3);
    assert_eq!(result.get("q").unwrap().as_str(), "rust");
    assert_eq!(result.get("page").unwrap().as_str(), "2");
    assert_eq!(result.get("sort").unwrap().as_str(), "desc");
}

#[test]
fn test_parse_query_no_query_string() {
    let path = b"/users/42";
    let result = parse_query(path, path.len());
    assert!(result.is_empty());
}

#[test]
fn test_parse_query_value_with_equals() {
    let path = b"/test?expr=a=b";
    let query_start = path.iter().position(|&c| c == b'?').unwrap();
    let result = parse_query(path, query_start);
    assert_eq!(result.len(), 1);
    assert_eq!(result.get("expr").unwrap().as_str(), "a=b");
}

// parse_body tests

#[test]
fn test_parse_body_valid_json() {
    let content = b"POST /users HTTP/1.1\r\nContent-Type: application/json\r\n\r\n{\"name\":\"kai\"}";
    let result = parse_body(content);
    let expected = JsonVal::Obj(vec![("name".to_string(), JsonVal::Str("kai".to_string()))]);
    assert_eq!(result, expected);
}

#[test]
fn test_parse_body_nested_json() {
    let content = b"POST / HTTP/1.1\r\n\r\n{\"user\":{\"address\":{\"city\":\"SP\"}}}";
    let result = parse_body(content);
    let expected = JsonVal::Obj(vec![(
        "user".to_string(),
        JsonVal::Obj(vec![(
            "address".to_string(),
            JsonVal::Obj(vec![("city".to_string(), JsonVal::Str("SP".to_string()))]),
        )]),
    )]);
    assert_eq!(result, expected);
}

#[test]
fn test_parse_body_no_body() {
    let content = b"GET / HTTP/1.1\r\nHost: localhost\r\n\r\n";
    let result = parse_body(content);
    assert_eq!(result, JsonVal::Null);
}

#[test]
fn test_parse_body_invalid_json() {
    let content = b"POST / HTTP/1.1\r\n\r\nnot json";
    let result = parse_body(content);
    assert_eq!(result, JsonVal::Null);
}

#[test]
fn test_parse_body_no_separator() {
    let content = b"GET / HTTP/1.1";
    let result = parse_body(content);
    assert_eq!(result, JsonVal::Null);
}

// resolve_body_field tests

#[test]
fn test_resolve_body_field_top_level_string() {
    let body = JsonVal::Obj(vec![("name".to_string(), JsonVal::Str("kai".to_string()))]);
    assert_eq!(resolve_body_field(&body, "name"), Some("kai".into()));
}

#[test]
fn test_resolve_body_field_nested() {
    let body = JsonVal::Obj(vec![(
        "address".to_string(),
        JsonVal::Obj(vec![("city".to_string(), JsonVal::Str("SP".to_string()))]),
    )]);
    assert_eq!(resolve_body_field(&body, "address.city"), Some("SP".into()));
}

#[test]
fn test_resolve_body_field_number() {
    let body = JsonVal::Obj(vec![("age".to_string(), JsonVal::Num("25".to_string()))]);
    assert_eq!(resolve_body_field(&body, "age"), Some("25".into()));
}

#[test]
fn test_resolve_body_field_boolean() {
    let body = JsonVal::Obj(vec![("active".to_string(), JsonVal::Bool(true))]);
    assert_eq!(resolve_body_field(&body, "active"), Some("true".into()));
}

#[test]
fn test_resolve_body_field_null() {
    let body = JsonVal::Obj(vec![("value".to_string(), JsonVal::Null)]);
    assert_eq!(resolve_body_field(&body, "value"), None);
}

#[test]
fn test_resolve_body_field_missing() {
    let body = JsonVal::Obj(vec![("name".to_string(), JsonVal::Str("kai".to_string()))]);
    assert_eq!(resolve_body_field(&body, "missing"), None);
}

#[test]
fn test_resolve_body_field_deeply_nested() {
    let body = JsonVal::Obj(vec![(
        "a".to_string(),
        JsonVal::Obj(vec![(
            "b".to_string(),
            JsonVal::Obj(vec![(
                "c".to_string(),
                JsonVal::Obj(vec![("d".to_string(), JsonVal::Str("deep".to_string()))]),
            )]),
        )]),
    )]);
    assert_eq!(resolve_body_field(&body, "a.b.c.d"), Some("deep".into()));
}

// substitute tests

#[test]
fn test_substitute_path_vars() {
    let mut path_vars = StrMap::new();
    path_vars.insert("id".to_string(), "42".to_string());
    let query_params = StrMap::new();
    let request_body = JsonVal::Null;

    let mut body = r#"{"id":"{/id}"}"#.to_string();
    substitute(&mut body, &path_vars, &query_params, &request_body);
    assert_eq!(body, r#"{"id":"42"}"#);
}

#[test]
fn test_substitute_query_params() {
    let path_vars = StrMap::new();
    let mut query_params = StrMap::new();
    query_params.insert("q".to_string(), "hello".to_string());
    let request_body = JsonVal::Null;

    let mut body = r#"{"search":"{?q}"}"#.to_string();
    substitute(&mut body, &path_vars, &query_params, &request_body);
    assert_eq!(body, r#"{"search":"hello"}"#);
}

#[test]
fn test_substitute_body_fields() {
    let path_vars = StrMap::new();
    let query_params = StrMap::new();
    let request_body = JsonVal::Obj(vec![
        ("username".to_string(), JsonVal::Str("kai".to_string())),
        (
            "address".to_string(),
            JsonVal::Obj(vec![("city".to_string(), JsonVal::Str("SP".to_string()))]),
        ),
    ]);

    let mut body = r#"{"user":"{#username}","city":"{#address.city}"}"#.to_string();
    substitute(&mut body, &path_vars, &query_params, &request_body);
    assert_eq!(body, r#"{"user":"kai","city":"SP"}"#);
}

#[test]
fn test_substitute_all_three_sources() {
    let mut path_vars = StrMap::new();
    path_vars.insert("id".to_string(), "42".to_string());
    let mut query_params = StrMap::new();
    query_params.insert("q".to_string(), "hello".to_string());
    let request_body = JsonVal::Obj(vec![("username".to_string(), JsonVal::Str("kai".to_string()))]);

    let mut body = r#"{"id":"{/id}","search":"{?q}","user":"{#username}"}"#.to_string();
    substitute(&mut body, &path_vars, &query_params, &request_body);
    assert_eq!(body, r#"{"id":"42","search":"hello","user":"kai"}"#);
}

#[test]
fn test_substitute_missing_placeholders_remain() {
    let path_vars = StrMap::new();
    let query_params = StrMap::new();
    let request_body = JsonVal::Null;

    let mut body = r#"{"id":"{/id}","q":"{?q}","name":"{#name}"}"#.to_string();
    substitute(&mut body, &path_vars, &query_params, &request_body);
    assert_eq!(body, r#"{"id":"{/id}","q":"{?q}","name":"{#name}"}"#);
}
