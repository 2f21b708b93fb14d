//! Asking who a name stands for.

use crate::assoc::{binds, find, lemma_found, Name};
use crate::creds::cred_manager::{CredsManager, RoleManagement, User, UserModel};
use vstd::prelude::*;

verus! {

/// Asking who a name stands for.
pub trait WhowAmI {
    /// Whether a user of that name is known.
    spec fn has_user(&self, username: Name) -> bool;

    /// The user called `user_name`, without the password. The name must be
    /// known.
    fn who_am_i(&self, user_name: &str) -> User
        requires
            self.has_user(user_name@),
    ;
}

impl WhowAmI for CredsManager {
    open spec fn has_user(&self, username: Name) -> bool {
        binds(self@, username)
    }

    fn who_am_i(&self, user_name: &str) -> (user: User)
        ensures
            Some(user@) == (match find(self@, user_name@) {
                Some(known) => Some(UserModel { password: Seq::empty(), ..known }),
                None => None,
            }),
    {
        match self.find_user(user_name) {
            Some(i) => {
                proof {
                    lemma_found(self@, user_name@, i as int);
                }
                self.users[i].without_password()
            },
            None => User {
                username: String::new(),
                password: Vec::new(),
                role: RoleManagement::Developer,
            },
        }
    }
}

} // verus!
