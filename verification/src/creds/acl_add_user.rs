//! Adding a user.

use crate::assoc::{lemma_found, put, Name};
use crate::creds::cred_manager::{
    may_manage, stored_password, ACLResult, CredsManager, ENCRYPT_KEY, IV_PATTERN, RoleManagement,
    User, UserModel,
};
use crate::crypto::crypto_service::Encryptor;
use vstd::prelude::*;

verus! {

/// The user that a new name, password and role make.
pub open spec fn new_user(username: Name, password: Seq<char>, role: RoleManagement) -> UserModel {
    UserModel { username, password: stored_password(password), role }
}

/// Adding a user.
pub trait IAddUser {
    /// Adds a user, or gives a user of that name a new password and role.
    /// One who acts as a user may do so only as an administrator.
    fn add_user(
        &mut self,
        username: String,
        password: String,
        role: RoleManagement,
        current_user: Option<&User>,
    ) -> ACLResult<'static>;
}

/// What one acts as, as plain values.
pub open spec fn acting_as(current_user: Option<&User>) -> Option<UserModel> {
    match current_user {
        Some(user) => Some(user@),
        None => None,
    }
}

impl CredsManager {
    /// Binds the name of `user` to `user`: in place where the name was known,
    /// at the end where it was not.
    pub fn put_user(&mut self, user: User)
        ensures
            final(self)@ == put(old(self)@, user@.username, user@),
            final(self).enable_log == old(self).enable_log,
    {
        match self.find_user(user.username.as_str()) {
            Some(i) => {
                proof {
                    lemma_found(self@, user@.username, i as int);
                }
                self.users[i] = user;
                assert(self@ =~= old(self)@.update(i as int, (user@.username, user@)));
            },
            None => {
                self.users.push(user);
                assert(self@ =~= old(self)@.push((user@.username, user@)));
            },
        }
    }
}

impl IAddUser for CredsManager {
    fn add_user(
        &mut self,
        username: String,
        password: String,
        role: RoleManagement,
        current_user: Option<&User>,
    ) -> (result: ACLResult<'static>)
        ensures
            result.is_success == may_manage(acting_as(current_user)),
            final(self).enable_log == old(self).enable_log,
            final(self)@ == if may_manage(acting_as(current_user)) {
                put(old(self)@, username@, new_user(username@, password@, role))
            } else {
                old(self)@
            },
            result.message@ == if may_manage(acting_as(current_user)) {
                "new user added"@
            } else {
                "Permission denied: Admin role required to add users"@
            },
    {
        match current_user {
            Some(user) => {
                if !user.role.can_manage_users() {
                    return ACLResult::faild("Permission denied: Admin role required to add users");
                }
            },
            None => {},
        }
        let encryptor = Encryptor::new(ENCRYPT_KEY, IV_PATTERN);
        let hashed_password = encryptor.encrypt(password.as_str());
        self.put_user(User { username, password: hashed_password, role });
        ACLResult::ok("new user added")
    }
}

impl CredsManager {
    /// Adds the administrator that a new installation starts with.
    pub fn create_admin(&mut self)
        ensures
            final(self).enable_log == old(self).enable_log,
            final(self)@ == put(
                old(self)@,
                "admin"@,
                new_user("admin"@, "123456"@, RoleManagement::Admin),
            ),
    {
        let _ = self.add_user(
            String::from_str("admin"),
            String::from_str("123456"),
            RoleManagement::Admin,
            None,
        );
    }
}

} // verus!
