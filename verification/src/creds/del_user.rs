//! Removing a user.

use crate::assoc::{binds, lemma_found, without};
use crate::creds::acl_add_user::acting_as;
use crate::creds::cred_manager::{may_manage, ACLResult, CredsManager, User};
use vstd::prelude::*;

verus! {

/// Removing a user.
pub trait DeletUser {
    /// Removes the user called `username`. One who acts as a user may do so
    /// only as an administrator.
    fn delete_user(&mut self, username: &str, current_user: Option<&User>) -> ACLResult<'static>;
}

impl DeletUser for CredsManager {
    fn delete_user(&mut self, username: &str, current_user: Option<&User>) -> (result: ACLResult<
        'static,
    >)
        ensures
            result.is_success == (may_manage(acting_as(current_user)) && binds(
                old(self)@,
                username@,
            )),
            final(self).enable_log == old(self).enable_log,
            final(self)@ == if may_manage(acting_as(current_user)) {
                without(old(self)@, username@)
            } else {
                old(self)@
            },
            result.message@ == if !may_manage(acting_as(current_user)) {
                "Access denied:your role do not have access to run this command."@
            } else if binds(old(self)@, username@) {
                "user deleted"@
            } else {
                "User not found"@
            },
    {
        match current_user {
            Some(user) => {
                if !user.role.can_manage_users() {
                    return ACLResult::faild(
                        "Access denied:your role do not have access to run this command.",
                    );
                }
            },
            None => {},
        }
        match self.find_user(username) {
            None => ACLResult::faild("User not found"),
            Some(i) => {
                proof {
                    lemma_found(self@, username@, i as int);
                }
                let _ = self.users.remove(i);
                assert(self@ =~= old(self)@.remove(i as int));
                ACLResult::ok("user deleted")
            },
        }
    }
}

} // verus!
