//! Listing the users.

use crate::assoc::Name;
use crate::creds::cred_manager::{users_view, CredsManager, User, UserModel};
use vstd::prelude::*;

verus! {

/// The users without their passwords.
pub open spec fn without_passwords(users: Seq<(Name, UserModel)>) -> Seq<(Name, UserModel)> {
    Seq::new(
        users.len(),
        |i: int| (users[i].0, UserModel { password: Seq::empty(), ..users[i].1 }),
    )
}

/// Listing the users.
pub trait CredUsers {
    /// The users, in the order in which they were added, without their
    /// passwords.
    fn load_users(&self) -> Vec<User>;
}

impl CredUsers for CredsManager {
    fn load_users(&self) -> (listed: Vec<User>)
        ensures
            users_view(listed@) == without_passwords(self@),
    {
        let mut listed: Vec<User> = Vec::new();
        let mut i: usize = 0;
        while i < self.users.len()
            invariant
                i <= self.users.len(),
                users_view(listed@) == without_passwords(self@).take(i as int),
            decreases self.users.len() - i,
        {
            let ghost so_far = users_view(listed@);
            let user = self.users[i].without_password();
            listed.push(user);
            assert(users_view(listed@) =~= so_far.push((user@.username, user@)));
            assert(users_view(listed@) =~= without_passwords(self@).take(i + 1));
            i = i + 1;
        }
        assert(without_passwords(self@).take(self.users.len() as int) =~= without_passwords(
            self@,
        ));
        listed
    }
}

} // verus!
