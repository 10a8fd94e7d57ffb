use tsukuyomi::uri::Uri;

#[test]
fn parse_uri_root() {
    let u = Uri::parse("/").unwrap();
    assert_eq!(u.as_str(), "/");
    assert!(!u.is_asterisk());
}

#[test]
fn parse_uri_static() {
    let u = Uri::parse("/path/to/lib").unwrap();
    assert_eq!(u.as_str(), "/path/to/lib");
    assert!(u.capture_names().is_none());
}

#[test]
fn parse_uri_static_has_trailing_slash() {
    let u = Uri::parse("/path/to/lib/").unwrap();
    assert_eq!(u.as_str(), "/path/to/lib/");
}

#[test]
fn parse_uri_asterisk() {
    let u = Uri::parse("*").unwrap();
    assert_eq!(u.as_str(), "*");
    assert!(u.is_asterisk());
}

#[test]
fn parse_uri_has_wildcard_params() {
    let u = Uri::parse("/api/v1/:param/*path").unwrap();
    assert_eq!(u.as_str(), "/api/v1/:param/*path");
    let names = u.capture_names().expect("two captures expected");
    assert_eq!(names.params, vec!["param".to_owned(), "path".to_owned()]);
    assert!(names.has_wildcard);
    assert_eq!(names.position("param"), Some(0));
    assert_eq!(names.position("path"), Some(1));
    assert_eq!(names.position("missing"), None);
}

#[test]
fn parse_uri_failcase_empty() {
    assert!(Uri::parse("").is_err());
}

#[test]
fn parse_uri_failcase_without_prefix_root() {
    assert!(Uri::parse("foo/bar").is_err());
}

#[test]
fn parse_uri_failcase_duplicated_slashes() {
    assert!(Uri::parse("//foo/bar/").is_err());
    assert!(Uri::parse("/foo//bar/").is_err());
    assert!(Uri::parse("/foo/bar//").is_err());
}

#[test]
fn parse_uri_failcase_invalid_wildcard_specifier_pos() {
    assert!(Uri::parse("/pa:th").is_err());
}

#[test]
fn parse_uri_failcase_non_ascii() {
    assert!(Uri::parse("/\u{30d1}\u{30b9}").is_err());
}

#[test]
fn parse_uri_failcase_duplicated_param_name() {
    assert!(Uri::parse("/:id/:id").is_err());
}

#[test]
fn parse_uri_failcase_after_wildcard_name() {
    assert!(Uri::parse("/path/to/*a/id").is_err());
}

#[test]
fn parse_roundtrip_is_stable() {
    for s in ["/", "*", "/path/to/lib", "/path/to/lib/", "/api/v1/:param/*path"] {
        let u1 = Uri::parse(s).unwrap();
        let u2 = Uri::parse(&u1.to_string()).unwrap();
        assert_eq!(u1.to_string(), u2.to_string());
        assert!(u1 == u2);
    }
}

#[test]
fn join_roots() {
    let r = Uri::root().join(&Uri::root()).unwrap();
    assert_eq!(r.as_str(), "/");
}

#[test]
fn join_root_and_static() {
    let r = Uri::root().join(&Uri::parse("/path/to").unwrap()).unwrap();
    assert_eq!(r.as_str(), "/path/to");
}

#[test]
fn join_trailing_slash_before_root_1() {
    let r = Uri::parse("/path/to/").unwrap().join(&Uri::root()).unwrap();
    assert_eq!(r.as_str(), "/path/to/");
}

#[test]
fn join_trailing_slash_before_root_2() {
    let r = Uri::parse("/path/to").unwrap().join(&Uri::root()).unwrap();
    assert_eq!(r.as_str(), "/path/to");
}

#[test]
fn join_trailing_slash_before_static_1() {
    let r = Uri::parse("/path").unwrap().join(&Uri::parse("/to").unwrap()).unwrap();
    assert_eq!(r.as_str(), "/path/to");
}

#[test]
fn join_trailing_slash_before_static_2() {
    let r = Uri::parse("/path/").unwrap().join(&Uri::parse("/to").unwrap()).unwrap();
    assert_eq!(r.as_str(), "/path/to");
}

#[test]
fn join_identity_both_sides() {
    let u = Uri::parse("/api/:id").unwrap();
    assert!(Uri::root().join(&u).unwrap() == u);
    assert!(u.join(&Uri::root()).unwrap() == u);
}

#[test]
fn join_merges_capture_names() {
    let a = Uri::parse("/api/:id").unwrap();
    let b = Uri::parse("/files/*rest").unwrap();
    let joined = a.join(&b).unwrap();
    assert_eq!(joined.as_str(), "/api/:id/files/*rest");
    let names = joined.capture_names().unwrap();
    assert_eq!(names.params, vec!["id".to_owned(), "rest".to_owned()]);
    assert!(names.has_wildcard);
}

#[test]
fn join_failcase_asterisk() {
    let a = Uri::asterisk();
    assert!(a.join(&Uri::root()).is_err());
    assert!(Uri::parse("/x").unwrap().join(&Uri::asterisk()).is_err());
}

#[test]
fn join_failcase_duplicate_name() {
    let a = Uri::parse("/api/:id").unwrap();
    let b = Uri::parse("/sub/:id").unwrap();
    assert!(a.join(&b).is_err());
}

#[test]
fn join_failcase_wildcard_not_last() {
    let a = Uri::parse("/files/*rest").unwrap();
    let b = Uri::parse("/tail").unwrap();
    assert!(a.join(&b).is_err());
}
