//! Enhanced authentication on the client's side.

use crate::error::Result;
use vstd::prelude::*;

verus! {

/// The answer to a challenge of the server.
#[derive(Debug)]
pub enum AuthResponse {
    Continue(Vec<u8>),
    Success,
    Abort(String),
}

/// Answers the challenges of one authentication method.
pub trait AuthHandler: Send + Sync {
    /// Answers a challenge.
    fn handle_challenge(&self, auth_method: &str, challenge_data: Option<&[u8]>) -> (r: Result<
        AuthResponse,
    >);

    /// What is sent with CONNECT, before any challenge. Nothing, unless the method says more.
    fn initial_response(&self, auth_method: &str) -> (r: Result<Option<Vec<u8>>>)
        default_ensures
            r matches Ok(None),
    {
        Ok(None)
    }
}

} // verus!
