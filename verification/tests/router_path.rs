use tsukuyomi::router::route::{join_uri, normalize_uri};

#[test]
fn normalize_uri_case_1() {
    assert_eq!(normalize_uri("/").ok(), Some("/".into()));
}

#[test]
fn normalize_uri_case_2() {
    assert_eq!(normalize_uri("/path/to/lib").ok(), Some("/path/to/lib".into()));
}

#[test]
fn normalize_uri_case_3() {
    assert_eq!(normalize_uri("/path/to/lib/").ok(), Some("/path/to/lib/".into()));
}

#[test]
fn normalize_uri_case_4() {
    assert_eq!(
        normalize_uri("/api/v1/:param/*param").ok(),
        Some("/api/v1/:param/*param".into())
    );
}

#[test]
fn normalize_uri_failcase_1() {
    assert!(normalize_uri("").is_err());
}

#[test]
fn normalize_uri_failcase_2() {
    assert!(normalize_uri("foo/bar").is_err());
}

#[test]
fn normalize_uri_failcase_3() {
    assert!(normalize_uri("/foo/bar//").is_err());
}

#[test]
fn normalize_uri_failcase_4() {
    assert!(normalize_uri("/pa:th").is_err());
}

#[test]
fn normalize_uri_failcase_5() {
    assert!(normalize_uri("/\u{30d1}\u{30b9}").is_err());
}

#[test]
fn join_path_case1() {
    assert_eq!(join_uri("/", "/"), "/");
}

#[test]
fn join_path_case2() {
    assert_eq!(join_uri("/path", "/to"), "/path/to");
}

#[test]
fn join_path_case3() {
    assert_eq!(join_uri("/", "/path/to"), "/path/to");
}

#[test]
fn join_path_case4() {
    assert_eq!(join_uri("/path/to/", "/"), "/path/to/");
}
