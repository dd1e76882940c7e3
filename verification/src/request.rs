//! Request-side data the library owns.
//!
//! The HTTP transport itself — sockets, TLS, the actual round trip — is
//! an external collaborator and lives with the host. What the library
//! owns is the request state a client carries between calls (the
//! authorization token) and the error value a failed request is reported
//! with. A task that performs a request is expected to turn a failure
//! into a dispatched event carrying a [`RequestError`], so the host sees
//! it through the normal drain path.

use vstd::prelude::*;

verus! {

/// Why a request failed, as reported to the host.
#[derive(Debug)]
pub enum RequestError {
    /// The platform transport failed; the payload describes how.
    NativeError(String),
}

/// The client-side state of a request service: the authorization token to
/// attach to outgoing requests, once one has been set.
pub struct ServiceClientImpl {
    auth_token: Option<String>,
}

impl ServiceClientImpl {
    /// The authorization token this client would attach to a request,
    /// if one has been set.
    pub closed spec fn token(self) -> Option<Seq<char>> {
        match self.auth_token {
            Some(t) => Some(t@),
            None => None,
        }
    }

    /// A client with no authorization token.
    pub fn new() -> (r: Self)
        ensures
            r.token() is None,
    {
        let auth_token = None;
        ServiceClientImpl { auth_token }
    }

    /// Record the authorization token to attach to requests from now on,
    /// replacing any earlier one.
    pub fn set_auth_token(&mut self, auth_token: &str)
        ensures
            final(self).token() == Some(auth_token@),
    {
        self.auth_token = Some(auth_token.to_owned());
    }

    /// Whether an authorization token has been set.
    pub fn has_auth_token(&self) -> (b: bool)
        ensures
            b == (self.token() is Some),
    {
        self.auth_token.is_some()
    }
}

} // verus!
