use mockrelay::template::{PathVariables, extract_variables};

#[test]
fn test_path_variables() {
    let src = "/foo/{a}/{b}/baz";
    let path = PathVariables::new(src);

    assert_eq!(path.match_pattern, "^/foo/([^/]+)/([^/]+)/baz$");
    assert_eq!(path.variables, ["a", "b"])
}

#[test]
fn test_path_variables_empty() {
    let src = "/foo/{}/{}/baz";
    let path = PathVariables::new(src);

    assert_eq!(path.match_pattern, "^/foo/([^/]+)/([^/]+)/baz$");
    assert!(path.variables.is_empty())
}

#[test]
fn test_extract_variables_should_successes() {
    let src = "/foo/{a}/{b}/baz";
    let path = "/foo/hello/world/baz";

    let variables = PathVariables::new(src);

    let result = extract_variables(&variables, path).unwrap();
    assert_eq!(result.len(), 2);
    assert_eq!(result.get("a").unwrap().as_str(), "hello");
    assert_eq!(result.get("b").unwrap().as_str(), "world");
}

#[test]
fn test_extract_variables_should_fail() {
    let src = "/foo/{a}/{b}/baz";
    let path = "/foo/hello";

    let variables = PathVariables::new(src);

    assert!(extract_variables(&variables, path).is_err())
}

#[test]
fn test_extract_variables_should() {
    let src = "/foo/{a}/{}/baz";
    let path = "/foo/hello/foo/baz";

    let variables = PathVariables::new(src);

    let result = extract_variables(&variables, path).unwrap();
    assert_eq!(result.len(), 1);
    assert_eq!(result.get("a").unwrap().as_str(), "hello");
}

#[test]
fn test_extract_variables_should2() {
    let src = "/foo/{}/{}/baz";
    let path = "/foo/hello/foo/baz";

    let variables = PathVariables::new(src);

    let result = extract_variables(&variables, path).unwrap();
    assert!(result.is_empty());
}
