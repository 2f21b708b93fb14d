//! Asking for the role of a user.

use crate::assoc::{binds, find, lemma_found, Name};
use crate::creds::cred_manager::{CredsManager, RoleManagement, User};
use vstd::prelude::*;

verus! {

/// Asking for the role of a user.
pub trait IRoleManager {
    /// Whether a user of that name is known.
    spec fn knows(&self, username: Name) -> bool;

    /// Whether the user that is known under the name of `user` is an
    /// administrator. The name must be known.
    fn is_admin(&mut self, user: &User) -> bool
        requires
            old(self).knows(user@.username),
    ;

    /// Whether the user that is known under the name of `user` is a
    /// developer. The name must be known.
    fn is_developer(&mut self, user: &User) -> bool
        requires
            old(self).knows(user@.username),
    ;
}

impl IRoleManager for CredsManager {
    open spec fn knows(&self, username: Name) -> bool {
        binds(self@, username)
    }

    fn is_admin(&mut self, user: &User) -> (admin: bool)
        ensures
            admin == (find(old(self)@, user@.username)->0.role == RoleManagement::Admin),
            final(self)@ == old(self)@,
            final(self).enable_log == old(self).enable_log,
    {
        match self.find_user(user.username.as_str()) {
            Some(i) => {
                proof {
                    lemma_found(self@, user@.username, i as int);
                }
                match self.users[i].role {
                    RoleManagement::Admin => true,
                    RoleManagement::Developer => false,
                }
            },
            None => false,
        }
    }

    fn is_developer(&mut self, user: &User) -> (developer: bool)
        ensures
            developer == (find(old(self)@, user@.username)->0.role == RoleManagement::Developer),
            final(self)@ == old(self)@,
            final(self).enable_log == old(self).enable_log,
    {
        match self.find_user(user.username.as_str()) {
            Some(i) => {
                proof {
                    lemma_found(self@, user@.username, i as int);
                }
                match self.users[i].role {
                    RoleManagement::Admin => false,
                    RoleManagement::Developer => true,
                }
            },
            None => false,
        }
    }
}

} // verus!
