//! The error raised while configuring an application.
//!
//! Every variant reports a condition that is detected at build time: an
//! invalid path template, an invalid method list, or a duplicate route.
//! None of them can reach request handling.

use vstd::prelude::*;

verus! {

/// A configuration error: the reason why a template, a route or a whole
/// application could not be built.
#[derive(Debug, Clone, Copy, PartialEq, Eq, Structural)]
pub enum Error {
    /// The template contains a non-ASCII character.
    NotAscii,
    /// The template does not start with `/`.
    MissingLeadingSlash,
    /// The template starts with `*` but is longer than `*`.
    InvalidAsterisk,
    /// The template contains an empty segment (a doubled slash).
    EmptySegment,
    /// A `:` or `*` occurs past the first position of a segment.
    InvalidCharInSegment,
    /// A `:` or `*` marker is not followed by a name.
    EmptyParameterName,
    /// A capture was declared with a character that is not `:` or `*`.
    UnknownParameterKind,
    /// Two captures of one template carry the same name.
    DuplicateParameterName,
    /// A segment follows the wildcard segment.
    WildcardAlreadySet,
    /// The asterisk template cannot be joined with another template.
    CannotJoinAsterisk,
    /// A method name was not recognized.
    UnknownMethod,
    /// Two endpoints share one absolute path and accept a common method.
    DuplicateRoute,
    /// `leave` was called on the global scope.
    NotInScope,
}

} // verus!
