//! The ways a request can fail before a target is resolved.

use vstd::prelude::*;

verus! {

/// Why a request could not be served as asked.
#[derive(Debug, Clone, Copy, PartialEq, Eq, Structural)]
pub enum RequestError {
    /// The stream closed, or the buffer filled, before a CRLF-terminated line arrived.
    UnexpectedClose,
    /// The request line is not UTF-8, not an absolute URL, or holds an undecodable query.
    UrlParseError,
    /// The URL's scheme is not `gemini`.
    UnsupportedScheme,
    /// A path segment would climb above the content root.
    PathTraversal,
    /// A file could not be read.
    IoReadError,
}

} // verus!
