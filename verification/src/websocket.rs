//! Websocket-side data the library owns.
//!
//! The websocket itself — connecting, framing, the wire — is an external
//! collaborator and lives with the host. What the library owns is the
//! error value a failed websocket operation is reported with. A task
//! that reads or writes a socket is expected to turn a failure into a
//! dispatched event carrying a [`WebSocketError`], so the host sees it
//! through the normal drain path.

use vstd::prelude::*;

verus! {

/// Why a websocket operation failed, as reported to the host.
#[derive(Debug)]
pub enum WebSocketError {
    /// The platform transport failed; the payload describes how.
    NativeError(String),
    /// The connection was still being set up.
    StateInit,
    /// The connection is in an error state; the payload describes it.
    StateError(String),
    /// The connection has already been closed.
    StateClosed,
}

} // verus!
