//! Checking a name and a password.

use crate::assoc::{find, lemma_found, Name};
use crate::creds::cred_manager::{password_key, CredsManager, ENCRYPT_KEY, IV_PATTERN, UserModel};
use crate::crypto::crypto_service::{decrypted_text, Encryptor};
use crate::outside::str_eq;
use vstd::prelude::*;

verus! {

/// Whether `password` is the password of the user called `username`: the
/// user must be known, and what is stored for the user must decrypt to the
/// password.
pub open spec fn authentic(users: Seq<(Name, UserModel)>, username: Name, password: Seq<char>) -> bool {
    match find(users, username) {
        Some(user) => decrypted_text(password_key(), user.password) == Some(password),
        None => false,
    }
}

/// Checking a name and a password.
pub trait Authenticator {
    /// Whether `password` is the password of the user called `username`.
    fn authenticate(&self, username: &str, password: &str) -> bool;
}

impl Authenticator for CredsManager {
    fn authenticate(&self, username: &str, password: &str) -> (granted: bool)
        ensures
            granted == authentic(self@, username@, password@),
    {
        let encryptor = Encryptor::new(ENCRYPT_KEY, IV_PATTERN);
        match self.find_user(username) {
            None => false,
            Some(i) => {
                proof {
                    lemma_found(self@, username@, i as int);
                }
                match encryptor.decrypt(self.users[i].password.as_slice()) {
                    Some(decrypted) => str_eq(decrypted.as_str(), password),
                    None => false,
                }
            },
        }
    }
}

} // verus!
