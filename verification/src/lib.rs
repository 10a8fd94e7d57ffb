//! Routing and request-dispatch core of an HTTP application toolkit.
//!
//! The crate turns a declarative tree of path/method endpoints and nested
//! scopes into a compiled router that maps an incoming request to exactly
//! one endpoint, together with the combinators and the per-request state
//! machine that drive argument extraction and handler invocation.

pub mod app;
pub mod dispatch;
pub mod error;
pub mod extractor;
pub mod local_map;
pub mod method;
pub mod route;
pub mod router;
pub mod scope;
pub mod text;
pub mod websocket;
pub mod uri;
