//! Authentication with a name and a password.

use crate::client::auth_handler::{AuthHandler, AuthResponse};
use crate::error::Result;
use crate::text::bytes_of;
use vstd::prelude::*;

verus! {

/// Sends the identity to act as, the name and the password with CONNECT, each behind a zero byte
/// but for the first, and takes any challenge for success.
#[derive(Debug)]
pub struct PlainAuthHandler {
    username: String,
    password: String,
    authzid: Option<String>,
}

/// Adds bytes at the end.
fn extend(data: &mut Vec<u8>, more: &Vec<u8>)
    ensures
        final(data)@ == old(data)@ + more@,
{
    let ghost start = data@;
    let mut i: usize = 0;
    while i < more.len()
        invariant
            i <= more@.len(),
            data@ =~= start + more@.take(i as int),
        decreases more@.len() - i,
    {
        data.push(more[i]);
        i = i + 1;
    }
    assert(more@.take(more@.len() as int) =~= more@);
}

impl PlainAuthHandler {
    /// The name.
    pub closed spec fn user(&self) -> Seq<char> {
        self.username@
    }

    /// The password.
    pub closed spec fn secret(&self) -> Seq<char> {
        self.password@
    }

    /// The identity to act as; empty where none is set.
    pub closed spec fn identity(&self) -> Seq<char> {
        match self.authzid {
            Some(id) => id@,
            None => Seq::empty(),
        }
    }

    /// What is sent with CONNECT.
    pub open spec fn message(&self) -> Seq<u8> {
        crate::text::utf8(self.identity()) + seq![0u8] + crate::text::utf8(self.user()) + seq![0u8]
            + crate::text::utf8(self.secret())
    }

    /// A handler for a name and a password.
    pub fn new(username: String, password: String) -> (r: Self)
        ensures
            r.user() == username@,
            r.secret() == password@,
            r.identity() == Seq::<char>::empty(),
    {
        PlainAuthHandler { username, password, authzid: None }
    }

    /// Sets the identity to act as.
    pub fn with_authzid(self, authzid: String) -> (r: Self)
        ensures
            r.user() == self.user(),
            r.secret() == self.secret(),
            r.identity() == authzid@,
    {
        let mut handler = self;
        handler.authzid = Some(authzid);
        handler
    }
}

impl AuthHandler for PlainAuthHandler {
    fn handle_challenge(&self, auth_method: &str, challenge_data: Option<&[u8]>) -> (r: Result<
        AuthResponse,
    >)
        ensures
            r matches Ok(AuthResponse::Success),
    {
        Ok(AuthResponse::Success)
    }

    fn initial_response(&self, auth_method: &str) -> (r: Result<Option<Vec<u8>>>)
        ensures
            r matches Ok(Some(data)) && data@ == self.message(),
    {
        let mut data: Vec<u8> = Vec::new();
        if let Some(authzid) = &self.authzid {
            let bytes = bytes_of(authzid.as_str());
            extend(&mut data, &bytes);
        } else {
            proof {
                crate::text::lemma_empty_text();
            }
        }
        assert(data@ =~= crate::text::utf8(self.identity()));
        data.push(0);
        let name = bytes_of(self.username.as_str());
        extend(&mut data, &name);
        data.push(0);
        let word = bytes_of(self.password.as_str());
        extend(&mut data, &word);
        assert(data@ =~= self.message());
        Ok(Some(data))
    }
}

/// The message of the PLAIN mechanism holds the three parts in their order, a zero byte between them.
pub proof fn law_plain_message_holds_three_parts(handler: PlainAuthHandler)
    ensures
        ({
            let first = crate::text::utf8(handler.identity()).len() as int;
            let second = first + 1 + crate::text::utf8(handler.user()).len();
            let message = handler.message();
            &&& message.len() == second + 1 + crate::text::utf8(handler.secret()).len()
            &&& message[first] == 0 && message[second] == 0
            &&& message.take(first) == crate::text::utf8(handler.identity())
            &&& message.subrange(first + 1, second) == crate::text::utf8(handler.user())
            &&& message.skip(second + 1) == crate::text::utf8(handler.secret())
        }),
{
    let a = crate::text::utf8(handler.identity());
    let b = crate::text::utf8(handler.user());
    let c = crate::text::utf8(handler.secret());
    let message = handler.message();
    let first = a.len() as int;
    let second = first + 1 + b.len();
    assert(message.take(first) =~= a);
    assert(message.subrange(first + 1, second) =~= b);
    assert(message.skip(second + 1) =~= c);
}

} // verus!
