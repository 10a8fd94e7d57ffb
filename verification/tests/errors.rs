use tsukuyomi::app::{App, Builder};
use tsukuyomi::error::Error;
use tsukuyomi::method::Methods;
use tsukuyomi::route::Route;
use tsukuyomi::uri::Uri;

fn builder() -> Builder<String, (), (), ()> {
    App::builder()
}

#[test]
fn parse_reports_the_first_failing_condition() {
    assert_eq!(Uri::parse("/\u{30d1}").unwrap_err(), Error::NotAscii);
    assert_eq!(Uri::parse("").unwrap_err(), Error::MissingLeadingSlash);
    assert_eq!(Uri::parse("foo/bar").unwrap_err(), Error::MissingLeadingSlash);
    assert_eq!(Uri::parse("*extra").unwrap_err(), Error::InvalidAsterisk);
    assert_eq!(Uri::parse("/foo//bar").unwrap_err(), Error::EmptySegment);
    assert_eq!(Uri::parse("/pa:th").unwrap_err(), Error::InvalidCharInSegment);
    assert_eq!(Uri::parse("/:").unwrap_err(), Error::EmptyParameterName);
    assert_eq!(Uri::parse("/:id/:id").unwrap_err(), Error::DuplicateParameterName);
    assert_eq!(Uri::parse("/*a/b").unwrap_err(), Error::WildcardAlreadySet);
}

#[test]
fn join_reports_its_own_failures() {
    let seg = Uri::parse("/x").unwrap();
    assert_eq!(
        Uri::asterisk().join(&seg).unwrap_err(),
        Error::CannotJoinAsterisk
    );
    assert_eq!(
        seg.join(&Uri::asterisk()).unwrap_err(),
        Error::CannotJoinAsterisk
    );
    let wild = Uri::parse("/files/*rest").unwrap();
    assert_eq!(wild.join(&seg).unwrap_err(), Error::WildcardAlreadySet);
    let a = Uri::parse("/:id").unwrap();
    let b = Uri::parse("/:id").unwrap();
    assert_eq!(a.join(&b).unwrap_err(), Error::DuplicateParameterName);
}

#[test]
fn method_names_are_checked() {
    assert_eq!(Methods::try_from_names("").unwrap_err(), Error::UnknownMethod);
    assert_eq!(Methods::try_from_names("GET, BREW").unwrap_err(), Error::UnknownMethod);
}

#[test]
fn duplicate_routes_fail_the_build() {
    let mut b = builder();
    b.route(Route::get("/path").unwrap()).unwrap();
    b.route(Route::get("/path").unwrap()).unwrap();
    assert_eq!(b.finish().unwrap_err(), Error::DuplicateRoute);
}

#[test]
fn leaving_the_global_scope_fails() {
    let mut b = builder();
    assert_eq!(b.leave().unwrap_err(), Error::NotInScope);
    b.mount("/x").unwrap();
    assert!(b.leave().is_ok());
    assert_eq!(b.leave().unwrap_err(), Error::NotInScope);
}

#[test]
fn mounting_the_asterisk_fails() {
    let mut b = builder();
    assert_eq!(b.mount("*").unwrap_err(), Error::CannotJoinAsterisk);
}
