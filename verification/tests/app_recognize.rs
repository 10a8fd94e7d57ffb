use tsukuyomi::app::{state, App, Builder};
use tsukuyomi::method::{Method, Methods};
use tsukuyomi::route::Route;
use tsukuyomi::router::{Recognize, RecognizeError};
use tsukuyomi::scope::{RouteId, ScopeId};

fn builder() -> Builder<String, (), (), ()> {
    App::builder()
}

#[test]
fn tests_empty() {
    let app = builder().finish().unwrap();
    assert!(matches!(
        app.recognize("/", &Method::Get),
        Err(RecognizeError::NotFound)
    ));
}

#[test]
fn route_single_method() {
    let mut b = builder();
    b.route(Route::index()).unwrap();
    let app = b.finish().unwrap();

    assert!(matches!(app.recognize("/", &Method::Get), Ok(Recognize::Matched(0, _))));

    assert!(matches!(
        app.recognize("/path/to", &Method::Get),
        Err(RecognizeError::NotFound)
    ));
    assert!(matches!(
        app.recognize("/", &Method::Post),
        Err(RecognizeError::MethodNotAllowed)
    ));
}

#[test]
fn route_multiple_method() {
    let mut b = builder();
    b.route(Route::get("/").unwrap()).unwrap();
    b.route(Route::post("/").unwrap()).unwrap();
    let app = b.finish().unwrap();

    assert!(matches!(app.recognize("/", &Method::Get), Ok(Recognize::Matched(0, _))));
    assert!(matches!(app.recognize("/", &Method::Post), Ok(Recognize::Matched(1, _))));

    assert!(matches!(
        app.recognize("/", &Method::Put),
        Err(RecognizeError::MethodNotAllowed)
    ));
}

#[test]
fn route_fallback_head_enabled() {
    let mut b = builder();
    b.route(Route::index()).unwrap();
    let app = b.finish().unwrap();

    assert!(matches!(app.recognize("/", &Method::Head), Ok(Recognize::Matched(0, _))));
}

#[test]
fn route_fallback_head_disabled() {
    let mut b = builder();
    b.route(Route::index()).unwrap();
    b.set_fallback_head(false);
    let app = b.finish().unwrap();

    assert!(matches!(
        app.recognize("/", &Method::Head),
        Err(RecognizeError::MethodNotAllowed)
    ));
}

#[test]
fn route_fallback_options_enabled() {
    let mut b = builder();
    b.route(Route::get("/").unwrap()).unwrap(); // 0
    b.route(Route::post("/").unwrap()).unwrap(); // 1
    b.route(Route::options("/options").unwrap()).unwrap(); // 2

    let app = b.finish().unwrap();

    match app.recognize("/", &Method::Options) {
        Ok(Recognize::Options(allow)) => {
            assert_eq!(allow.0, vec![Method::Get, Method::Post, Method::Options]);
        }
        other => panic!("expected the synthetic answer, got {:?}", other),
    }
    assert!(matches!(
        app.recognize("/options", &Method::Options),
        Ok(Recognize::Matched(2, _))
    ));
}

#[test]
fn route_fallback_options_disabled() {
    let mut b = builder();
    b.route(Route::index()).unwrap();
    b.route(Route::post("/").unwrap()).unwrap();
    b.set_fallback_options(false);
    let app = b.finish().unwrap();

    assert!(matches!(
        app.recognize("/", &Method::Options),
        Err(RecognizeError::MethodNotAllowed)
    ));
}

#[test]
fn scope_simple() {
    let mut b = builder();
    b.mount("/").unwrap();
    b.route(Route::get("/a").unwrap()).unwrap();
    b.route(Route::get("/b").unwrap()).unwrap();
    b.leave().unwrap();
    b.route(Route::get("/foo").unwrap()).unwrap();
    b.mount("/c").unwrap();
    b.route(Route::get("/d").unwrap()).unwrap();
    b.route(Route::get("/e").unwrap()).unwrap();
    b.leave().unwrap();
    let app = b.finish().unwrap();

    assert!(matches!(app.recognize("/a", &Method::Get), Ok(Recognize::Matched(0, _))));
    assert!(matches!(app.recognize("/b", &Method::Get), Ok(Recognize::Matched(1, _))));
    assert!(matches!(app.recognize("/foo", &Method::Get), Ok(Recognize::Matched(2, _))));
    assert!(matches!(app.recognize("/c/d", &Method::Get), Ok(Recognize::Matched(3, _))));
    assert!(matches!(app.recognize("/c/e", &Method::Get), Ok(Recognize::Matched(4, _))));
}

#[test]
fn scope_nested() {
    let mut b = builder();
    b.mount("/").unwrap();
    b.route(Route::get("/foo").unwrap()).unwrap(); // /foo
    b.route(Route::get("/bar").unwrap()).unwrap(); // /bar
    b.leave().unwrap();
    b.mount("/baz").unwrap();
    b.route(Route::index()).unwrap(); // /baz
    b.mount("/").unwrap();
    b.route(Route::get("/foobar").unwrap()).unwrap(); // /baz/foobar
    b.leave().unwrap();
    b.leave().unwrap();
    b.route(Route::get("/hoge").unwrap()).unwrap(); // /hoge
    let app = b.finish().unwrap();

    assert!(matches!(app.recognize("/foo", &Method::Get), Ok(Recognize::Matched(0, _))));
    assert!(matches!(app.recognize("/bar", &Method::Get), Ok(Recognize::Matched(1, _))));
    assert!(matches!(app.recognize("/baz", &Method::Get), Ok(Recognize::Matched(2, _))));
    assert!(matches!(
        app.recognize("/baz/foobar", &Method::Get),
        Ok(Recognize::Matched(3, _))
    ));
    assert!(matches!(app.recognize("/hoge", &Method::Get), Ok(Recognize::Matched(4, _))));

    assert!(matches!(
        app.recognize("/baz/", &Method::Get),
        Err(RecognizeError::NotFound)
    ));
}

#[test]
fn scope_variable() {
    let mut b = builder();
    b.apply(state("G".to_string()));
    b.route(Route::get("/rg").unwrap()).unwrap();
    b.mount("/s0").unwrap();
    {
        b.route(Route::get("/r0").unwrap()).unwrap();
        b.mount("/s1").unwrap();
        {
            b.apply(state("A".to_string()));
            b.route(Route::get("/r1").unwrap()).unwrap();
        }
        b.leave().unwrap();
    }
    b.leave().unwrap();
    b.mount("/s2").unwrap();
    {
        b.apply(state("B".to_string()));
        b.route(Route::get("/r2").unwrap()).unwrap();
        b.mount("/s3").unwrap();
        {
            b.apply(state("C".to_string()));
            b.route(Route::get("/r3").unwrap()).unwrap();
            b.mount("/s4").unwrap();
            b.route(Route::get("/r4").unwrap()).unwrap();
            b.leave().unwrap();
        }
        b.leave().unwrap();
        b.mount("/s5").unwrap();
        {
            b.route(Route::get("/r5").unwrap()).unwrap();
            b.mount("/s6").unwrap();
            b.route(Route::get("/r6").unwrap()).unwrap();
            b.leave().unwrap();
        }
        b.leave().unwrap();
    }
    b.leave().unwrap();
    let app = b.finish().unwrap();

    assert_eq!(
        app.get_state(RouteId(ScopeId::Global, 0)).map(String::as_str),
        Some("G")
    );
    assert_eq!(
        app.get_state(RouteId(ScopeId::Local(0), 1)).map(String::as_str),
        Some("G")
    );
    assert_eq!(
        app.get_state(RouteId(ScopeId::Local(1), 2)).map(String::as_str),
        Some("A")
    );
    assert_eq!(
        app.get_state(RouteId(ScopeId::Local(2), 3)).map(String::as_str),
        Some("B")
    );
    assert_eq!(
        app.get_state(RouteId(ScopeId::Local(3), 4)).map(String::as_str),
        Some("C")
    );
    assert_eq!(
        app.get_state(RouteId(ScopeId::Local(4), 5)).map(String::as_str),
        Some("C")
    );
    assert_eq!(
        app.get_state(RouteId(ScopeId::Local(5), 6)).map(String::as_str),
        Some("B")
    );
    assert_eq!(
        app.get_state(RouteId(ScopeId::Local(6), 7)).map(String::as_str),
        Some("B")
    );
}

#[test]
fn failcase_duplicate_uri_and_method() {
    let mut b = builder();
    b.route(Route::get("/path").unwrap()).unwrap();
    b.route(Route::get("/path").unwrap()).unwrap();
    assert!(b.finish().is_err());
}

#[test]
fn failcase_different_scope_at_the_same_uri() {
    let mut b = builder();
    b.route(Route::get("/path").unwrap()).unwrap();
    b.mount("/").unwrap();
    b.route(Route::get("/path").unwrap()).unwrap();
    b.leave().unwrap();
    assert!(b.finish().is_err());
}

#[test]
fn test_methods_try_from() {
    assert_eq!(Methods::single(Method::Get).0, vec![Method::Get]);
    assert_eq!(
        Methods::from_list(vec![Method::Get, Method::Post]).0,
        vec![Method::Get, Method::Post]
    );
    assert_eq!(
        Methods::try_from_names("GET").unwrap().0,
        vec![Method::Get]
    );
    assert_eq!(
        Methods::try_from_names("GET, POST").unwrap().0,
        vec![Method::Get, Method::Post]
    );
    assert!(Methods::try_from_names("").is_err());
}

#[test]
fn literal_beats_param_regardless_of_order() {
    // The literal child wins at its level whatever the registration
    // order of the two routes.
    for literal_first in [true, false] {
        let mut b = builder();
        let lit = Route::get("/files/latest").unwrap();
        let par = Route::get("/files/:name").unwrap();
        if literal_first {
            b.route(lit).unwrap();
            b.route(par).unwrap();
        } else {
            b.route(par).unwrap();
            b.route(lit).unwrap();
        }
        let app = b.finish().unwrap();
        let lit_index = if literal_first { 0 } else { 1 };
        match app.recognize("/files/latest", &Method::Get) {
            Ok(Recognize::Matched(i, caps)) => {
                assert_eq!(i, lit_index);
                assert!(caps.is_empty());
            }
            other => panic!("expected the literal route, got {:?}", other),
        }
        match app.recognize("/files/report", &Method::Get) {
            Ok(Recognize::Matched(i, caps)) => {
                assert_eq!(i, 1 - lit_index);
                assert_eq!(caps, vec!["report".to_owned()]);
            }
            other => panic!("expected the parameter route, got {:?}", other),
        }
    }
}

#[test]
fn param_beats_wildcard() {
    let mut b = builder();
    b.route(Route::get("/files/*rest").unwrap()).unwrap();
    b.route(Route::get("/files/:name").unwrap()).unwrap();
    let app = b.finish().unwrap();

    // The parameter wins its level over the wildcard, whatever the
    // registration order.
    assert!(matches!(
        app.recognize("/files/report", &Method::Get),
        Ok(Recognize::Matched(1, _))
    ));
    // The walk never backtracks: once the parameter branch is taken at
    // its level, a longer path dies there instead of reconsidering the
    // wildcard.
    assert!(matches!(
        app.recognize("/files/a/b/c", &Method::Get),
        Err(RecognizeError::NotFound)
    ));
}

#[test]
fn wildcard_captures_rest() {
    let mut b = builder();
    b.route(Route::get("/files/*rest").unwrap()).unwrap();
    let app = b.finish().unwrap();

    match app.recognize("/files/a/b/c", &Method::Get) {
        Ok(Recognize::Matched(0, caps)) => {
            assert_eq!(caps, vec!["a/b/c".to_owned()]);
        }
        other => panic!("expected the wildcard route, got {:?}", other),
    }
    match app.recognize("/files/x", &Method::Get) {
        Ok(Recognize::Matched(0, caps)) => {
            assert_eq!(caps, vec!["x".to_owned()]);
        }
        other => panic!("expected the wildcard route, got {:?}", other),
    }
}

#[test]
fn captures_by_position() {
    let mut b = builder();
    b.route(Route::get("/api/:version/users/:id").unwrap()).unwrap();
    let app = b.finish().unwrap();

    match app.recognize("/api/v1/users/42", &Method::Get) {
        Ok(Recognize::Matched(0, caps)) => {
            assert_eq!(caps, vec!["v1".to_owned(), "42".to_owned()]);
        }
        other => panic!("expected a match with two captures, got {:?}", other),
    }
}

#[test]
fn asterisk_options() {
    let mut b = builder();
    b.route(Route::get("/a").unwrap()).unwrap();
    b.route(Route::post("/b").unwrap()).unwrap();
    let app = b.finish().unwrap();

    match app.recognize("*", &Method::Options) {
        Ok(Recognize::Options(allow)) => {
            assert_eq!(allow.0, vec![Method::Get, Method::Post, Method::Options]);
        }
        other => panic!("expected the aggregated answer, got {:?}", other),
    }
    assert!(matches!(
        app.recognize("*", &Method::Get),
        Err(RecognizeError::NotFound)
    ));
}

#[test]
fn asterisk_explicit_route() {
    let mut b = builder();
    b.route(Route::asterisk()).unwrap();
    let app = b.finish().unwrap();

    assert!(matches!(
        app.recognize("*", &Method::Options),
        Ok(Recognize::Matched(0, _))
    ));
}

#[test]
fn with_prefix_moves_all_routes() {
    let mut b = App::<String, (), (), ()>::with_prefix("/api").unwrap();
    b.route(Route::get("/users").unwrap()).unwrap();
    let app = b.finish().unwrap();

    assert!(matches!(
        app.recognize("/api/users", &Method::Get),
        Ok(Recognize::Matched(0, _))
    ));
    assert!(matches!(
        app.recognize("/users", &Method::Get),
        Err(RecognizeError::NotFound)
    ));
}
