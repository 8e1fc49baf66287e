//! Authentication with a token.

use crate::client::auth_handler::{AuthHandler, AuthResponse};
use crate::error::Result;
use crate::text::bytes_of;
use vstd::prelude::*;

verus! {

/// Sends a token with CONNECT and takes any challenge for success.
#[derive(Debug)]
pub struct JwtAuthHandler {
    token: String,
}

impl JwtAuthHandler {
    /// The token.
    pub closed spec fn secret(&self) -> Seq<char> {
        self.token@
    }

    /// A handler for a token.
    pub fn new(token: String) -> (r: Self)
        ensures
            r.secret() == token@,
    {
        JwtAuthHandler { token }
    }
}

impl AuthHandler for JwtAuthHandler {
    fn handle_challenge(&self, auth_method: &str, challenge_data: Option<&[u8]>) -> (r: Result<
        AuthResponse,
    >)
        ensures
            r matches Ok(AuthResponse::Success),
    {
        Ok(AuthResponse::Success)
    }

    fn initial_response(&self, auth_method: &str) -> (r: Result<Option<Vec<u8>>>)
        ensures
            r matches Ok(Some(data)) && data@ == crate::text::utf8(self.secret()),
    {
        Ok(Some(bytes_of(self.token.as_str())))
    }
}

} // verus!
