//! Answers of the service, and the credentials that a request carries.

use crate::cache::text::{decode_text, spelled};
use crate::creds::auth::{authentic, Authenticator};
use crate::creds::cred_manager::CredsManager;
use crate::persistent::chars::{chars_of, split_at_mark, split_on, text_of_chars};
use vstd::prelude::*;
use vstd::string::*;
use vstd::utf8::encode_utf8;

verus! {

/// An answer of the service: whether the request succeeded, and what it
/// gives back.
#[derive(Debug)]
pub struct ApiResponse<T> {
    pub is_success: bool,
    pub data: T,
}

impl<T> ApiResponse<T> {
    /// The answer to a request that succeeded.
    pub fn ok(data: T) -> (response: Self)
        ensures
            response.is_success,
            response.data == data,
    {
        ApiResponse { is_success: true, data }
    }

    /// The answer to a request that failed.
    pub fn fail(data: T) -> (response: Self)
        ensures
            !response.is_success,
            response.data == data,
    {
        ApiResponse { is_success: false, data }
    }
}

/// The name and the password that the authorization of a request carries:
/// the authorization is the base64 form of a text, and the name and the
/// password are the first two pieces of the text between its colons. There
/// are none where the authorization stands for no text, or where the text
/// has no colon.
pub open spec fn credentials_of(authorization: Seq<char>) -> Option<(Seq<char>, Seq<char>)> {
    match spelled(encode_utf8(authorization)) {
        Some(pair) => if split_on(pair.1, ':').len() >= 2 {
            Some((split_on(pair.1, ':')[0], split_on(pair.1, ':')[1]))
        } else {
            None
        },
        None => None,
    }
}

/// The name and the password that the authorization of a request carries.
pub fn credentials(authorization: &str) -> (found: Option<(String, String)>)
    ensures
        match credentials_of(authorization@) {
            Some(pair) => found matches Some(given) && given.0@ == pair.0 && given.1@ == pair.1,
            None => found is None,
        },
{
    let bytes = authorization.as_bytes_vec();
    match decode_text(&bytes) {
        None => None,
        Some((_, text)) => {
            let chars = chars_of(text.as_str());
            let pieces = split_at_mark(&chars, ':');
            if pieces.len() >= 2 {
                Some((text_of_chars(&pieces[0]), text_of_chars(&pieces[1])))
            } else {
                None
            }
        },
    }
}

/// Whether the authorization of a request carries the name and the password
/// of a user.
pub fn authorized(creds: &CredsManager, authorization: &str) -> (granted: bool)
    ensures
        granted == (match credentials_of(authorization@) {
            Some(pair) => authentic(creds@, pair.0, pair.1),
            None => false,
        }),
{
    match credentials(authorization) {
        Some((username, password)) => creds.authenticate(username.as_str(), password.as_str()),
        None => false,
    }
}

} // verus!
