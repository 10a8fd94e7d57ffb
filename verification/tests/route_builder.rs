use tsukuyomi::app::{modifier, App, Builder as AppBuilder};
use tsukuyomi::method::{Method, Methods};
use tsukuyomi::route;
use tsukuyomi::router::Recognize;
use tsukuyomi::scope::ScopeId;

fn builder() -> AppBuilder<String, u32, (), u8> {
    App::builder()
}

#[test]
fn builder_grows_one_component_at_a_time() {
    let b = route::root()
        .segment("api")
        .unwrap()
        .segment("v1")
        .unwrap()
        .param("param")
        .unwrap()
        .catch_all("path")
        .unwrap();
    let r = b.methods(Methods::single(Method::Get)).finish(0u8);
    assert_eq!(r.uri.as_str(), "/api/v1/:param/*path");
    let names = r.uri.capture_names().unwrap();
    assert_eq!(names.params, vec!["param".to_owned(), "path".to_owned()]);
    assert!(names.has_wildcard);
}

#[test]
fn builder_root_and_slash() {
    let r = route::root().finish(0u8);
    assert_eq!(r.uri.as_str(), "/");

    let r = route::root().segment("a").unwrap().slash().finish(0u8);
    assert_eq!(r.uri.as_str(), "/a/");
}

#[test]
fn builder_asterisk() {
    let r = route::asterisk().methods(Methods::single(Method::Options)).finish(0u8);
    assert!(r.uri.is_asterisk());
}

#[test]
fn builder_failcase_bad_component() {
    assert!(route::root().segment("").is_err());
    assert!(route::root().segment("a/b").is_err());
    assert!(route::root().segment(":x").is_err());
    assert!(route::root().segment("pa*th").is_err());
    assert!(route::root().param("").is_err());
}

#[test]
fn builder_failcase_duplicate_param() {
    let b = route::root().param("id").unwrap();
    assert!(b.param("id").is_err());
}

#[test]
fn built_route_recognizes() {
    let mut b = builder();
    let route = route::root()
        .segment("users")
        .unwrap()
        .param("id")
        .unwrap()
        .methods(Methods::single(Method::Get))
        .finish(7u8);
    b.route(route).unwrap();
    let app = b.finish().unwrap();

    match app.recognize("/users/42", &Method::Get) {
        Ok(Recognize::Matched(0, caps)) => assert_eq!(caps, vec!["42".to_owned()]),
        other => panic!("expected the built route to match, got {:?}", other),
    }
}

#[test]
fn modifier_chain_is_outer_to_inner() {
    let mut b = builder();
    b.apply(modifier(1u32));
    b.mount("/outer").unwrap();
    b.apply(modifier(2u32));
    b.apply(modifier(3u32));
    b.mount("/inner").unwrap();
    b.apply(modifier(4u32));
    b.leave().unwrap();
    b.leave().unwrap();
    let app = b.finish().unwrap();

    let chain = app.inner.scope_chain(ScopeId::Local(1));
    assert_eq!(
        chain,
        vec![ScopeId::Global, ScopeId::Local(0), ScopeId::Local(1)]
    );
    let mut all: Vec<u32> = Vec::new();
    for id in chain {
        all.extend(app.inner.modifiers_of(id).iter().copied());
    }
    assert_eq!(all, vec![1, 2, 3, 4]);
}
