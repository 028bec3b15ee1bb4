//! What can go wrong while one connection is served.

use vstd::prelude::*;

verus! {

/// Every failure is confined to the connection that met it: each kind has
/// a response of its own (see `response::error_response`).
#[derive(Clone, Copy, Debug, PartialEq, Eq, Structural)]
pub enum Error {
    /// The bytes received do not begin with a well-formed request line.
    MalformedRequest,
    /// The file that a request names cannot be served.
    NotFound,
    /// A header that the route needs is absent.
    MissingHeader,
    /// A file route was hit and no base directory is configured.
    Configuration,
    /// The file of a `POST` could not be created or written.
    Io,
}

} // verus!
