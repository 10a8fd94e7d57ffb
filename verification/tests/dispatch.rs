use tsukuyomi::app::{App, Builder};
use tsukuyomi::dispatch::{Dispatch, DispatchState, ResponseSource};
use tsukuyomi::extractor::ExtractError;
use tsukuyomi::method::Method;
use tsukuyomi::route::Route;
use tsukuyomi::router::RecognizeError;

fn builder() -> Builder<String, (), (), ()> {
    App::builder()
}

#[test]
fn matched_request_runs_the_full_pipeline() {
    let mut b = builder();
    b.route(Route::get("/users/:id").unwrap()).unwrap();
    let app = b.finish().unwrap();
    let service = app.new_service();
    assert!(service.poll_ready());

    let mut d = service.call("/users/42", &Method::Get);
    assert_eq!(d.state, DispatchState::Extracting);
    assert_eq!(d.endpoint, Some(0));
    assert_eq!(d.captures, vec!["42".to_owned()]);

    // One suspension, then the pipeline finishes.
    d.on_extracted(Ok(false));
    assert_eq!(d.state, DispatchState::Extracting);
    d.on_extracted(Ok(true));
    assert_eq!(d.state, DispatchState::Invoking);

    // The handler suspends once, then produces its output.
    d.on_invoked(Ok(false));
    assert_eq!(d.state, DispatchState::Invoking);
    d.on_invoked(Ok(true));
    assert_eq!(d.state, DispatchState::Responding);
    assert!(matches!(d.source, ResponseSource::Handler));

    d.on_responded();
    assert_eq!(d.state, DispatchState::Done);
    assert!(d.is_done());
}

#[test]
fn extraction_failure_short_circuits_to_responding() {
    let mut b = builder();
    b.route(Route::get("/").unwrap()).unwrap();
    let app = b.finish().unwrap();

    let mut d = app.new_service().call("/", &Method::Get);
    assert_eq!(d.state, DispatchState::Extracting);
    d.on_extracted(Err(ExtractError { message: "missing header".to_owned() }));
    assert_eq!(d.state, DispatchState::Responding);
    match &d.source {
        ResponseSource::Failure(e) => assert_eq!(e.message, "missing header"),
        other => panic!("the extraction failure must be rendered, got {:?}", other),
    }
}

#[test]
fn handler_failure_short_circuits_to_responding() {
    let mut b = builder();
    b.route(Route::get("/").unwrap()).unwrap();
    let app = b.finish().unwrap();

    let mut d = app.new_service().call("/", &Method::Get);
    d.on_extracted(Ok(true));
    d.on_invoked(Err(ExtractError { message: "handler broke".to_owned() }));
    assert_eq!(d.state, DispatchState::Responding);
    assert!(matches!(d.source, ResponseSource::Failure(_)));
}

#[test]
fn unmatched_request_responds_at_once() {
    let app = builder().finish().unwrap();
    let d = app.new_service().call("/missing", &Method::Get);
    assert_eq!(d.state, DispatchState::Responding);
    assert_eq!(d.endpoint, None);
    assert!(matches!(
        d.source,
        ResponseSource::NotRecognized(RecognizeError::NotFound)
    ));
}

#[test]
fn method_error_responds_at_once() {
    let mut b = builder();
    b.route(Route::get("/").unwrap()).unwrap();
    let app = b.finish().unwrap();
    let d = app.new_service().call("/", &Method::Put);
    assert_eq!(d.state, DispatchState::Responding);
    assert!(matches!(
        d.source,
        ResponseSource::NotRecognized(RecognizeError::MethodNotAllowed)
    ));
}

#[test]
fn options_fallback_responds_with_allow_list() {
    let mut b = builder();
    b.route(Route::get("/").unwrap()).unwrap();
    b.route(Route::post("/").unwrap()).unwrap();
    let app = b.finish().unwrap();
    let d = app.new_service().call("/", &Method::Options);
    assert_eq!(d.state, DispatchState::Responding);
    match &d.source {
        ResponseSource::AllowList(allow) => {
            assert_eq!(allow.0, vec![Method::Get, Method::Post, Method::Options]);
        }
        other => panic!("the allow list must be rendered, got {:?}", other),
    }
}

#[test]
fn direct_construction_from_recognition() {
    let d = Dispatch::new(Err(RecognizeError::NotFound));
    assert_eq!(d.state, DispatchState::Responding);
    assert!(!d.is_done());
}
