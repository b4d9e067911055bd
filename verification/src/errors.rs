use vstd::prelude::*;

verus! {

/// Why establishing a session failed. Each connect attempt is terminal:
/// the caller decides whether to try again.
#[derive(Clone, Debug)]
pub enum ConnectionError {
    /// The address could not be resolved to an endpoint.
    ResolutionFailed,
    /// The endpoint answered but rejected the session handshake.
    HandshakeFailed,
    /// The socket failed while the session was being established.
    Transport(String),
}

/// Why a single tag read or write failed. Every failure is surfaced to
/// the caller; no retry and no partial success happen underneath.
#[derive(Clone, Debug)]
pub enum TagError {
    /// The tag string does not follow the tag-path grammar. Detected
    /// locally, before anything is sent to the controller.
    InvalidAddress,
    /// The controller rejected the request with this status code.
    RemoteRejected(u16),
    /// The request could not be carried over the established session.
    Transport(String),
    /// The value on the wire is not tagged as a 32-bit float.
    TypeMismatch,
    /// The controller refused to store the value with this status code.
    WriteRejected(u16),
}

} // verus!
