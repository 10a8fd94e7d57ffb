use tsukuyomi::app::{App, Builder};
use tsukuyomi::method::Method;
use tsukuyomi::route::Route;
use tsukuyomi::router::{Recognize, RecognizeError};

fn builder() -> Builder<String, (), (), ()> {
    App::builder()
}

#[test]
fn root_single_method() {
    let mut b = builder();
    b.mount("/").unwrap();
    b.route(Route::get("/").unwrap()).unwrap();
    b.leave().unwrap();
    let app = b.finish().unwrap();

    assert!(matches!(app.recognize("/", &Method::Get), Ok(Recognize::Matched(0, _))));

    assert!(app.recognize("/path/to", &Method::Get).is_err());
    assert!(app.recognize("/", &Method::Post).is_err());
}

#[test]
fn root_multiple_method() {
    let mut b = builder();
    b.mount("/").unwrap();
    b.route(Route::get("/").unwrap()).unwrap();
    b.route(Route::post("/").unwrap()).unwrap();
    b.leave().unwrap();
    let app = b.finish().unwrap();

    assert!(matches!(app.recognize("/", &Method::Get), Ok(Recognize::Matched(0, _))));
    assert!(matches!(app.recognize("/", &Method::Post), Ok(Recognize::Matched(1, _))));

    assert!(app.recognize("/", &Method::Put).is_err());
}

#[test]
fn root_fallback_head() {
    let mut b = builder();
    b.mount("/").unwrap();
    b.route(Route::get("/").unwrap()).unwrap();
    b.leave().unwrap();
    let app = b.finish().unwrap();

    assert!(matches!(app.recognize("/", &Method::Head), Ok(Recognize::Matched(0, _))));
}

#[test]
fn root_fallback_head_disabled() {
    let mut b = builder();
    b.mount("/").unwrap();
    b.route(Route::get("/").unwrap()).unwrap();
    b.leave().unwrap();
    b.set_fallback_head(false);
    let app = b.finish().unwrap();

    assert!(app.recognize("/", &Method::Head).is_err());
}

#[test]
fn fallback_options() {
    let mut b = builder();
    b.mount("/path/to").unwrap();
    b.route(Route::get("/foo").unwrap()).unwrap();
    b.route(Route::post("/foo").unwrap()).unwrap();
    b.leave().unwrap();
    b.set_fallback_options(true);
    let app = b.finish().unwrap();

    assert!(matches!(
        app.recognize("/path/to/foo", &Method::Options),
        Ok(Recognize::Options(_))
    ));
}

#[test]
fn fallback_options_disabled() {
    let mut b = builder();
    b.mount("/path/to").unwrap();
    b.route(Route::get("/foo").unwrap()).unwrap();
    b.route(Route::post("/foo").unwrap()).unwrap();
    b.leave().unwrap();
    b.set_fallback_options(false);
    let app = b.finish().unwrap();

    assert!(app.recognize("/path/to/foo", &Method::Options).is_err());
}

#[test]
fn mount_prefixes_nest() {
    let mut b = builder();
    b.mount("/").unwrap();
    b.route(Route::get("/foo").unwrap()).unwrap(); // /foo
    b.route(Route::get("/bar").unwrap()).unwrap(); // /bar
    b.leave().unwrap();
    b.mount("/baz").unwrap();
    b.route(Route::get("/").unwrap()).unwrap(); // /baz
    b.mount("/").unwrap();
    b.route(Route::get("/foobar").unwrap()).unwrap(); // /baz/foobar
    b.leave().unwrap();
    b.leave().unwrap();
    let app = b.finish().unwrap();

    assert!(matches!(app.recognize("/foo", &Method::Get), Ok(Recognize::Matched(0, _))));
    assert!(matches!(app.recognize("/bar", &Method::Get), Ok(Recognize::Matched(1, _))));
    assert!(matches!(app.recognize("/baz", &Method::Get), Ok(Recognize::Matched(2, _))));
    assert!(matches!(
        app.recognize("/baz/foobar", &Method::Get),
        Ok(Recognize::Matched(3, _))
    ));

    assert!(app.recognize("/baz/", &Method::Get).is_err());
    assert!(matches!(
        app.recognize("/baz/", &Method::Get),
        Err(RecognizeError::NotFound)
    ));
}
