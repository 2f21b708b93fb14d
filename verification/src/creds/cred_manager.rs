//! The users that may use the engine.

use crate::assoc::{binds, find, first_at, lemma_found, lemma_missing, Name};
use crate::cache::get::copy_bytes;
use crate::crypto::crypto_service::padded_key;
use crate::outside::{aes256_cbc_encrypted, str_eq};
use crate::persistent::chars::{chars_of, same_chars};
use crate::persistent::command::{push_value_text, value_text};
use std::str::FromStr;
use vstd::prelude::*;
use vstd::string::*;
use vstd::utf8::encode_utf8;

verus! {

/// What a user may do.
#[derive(Clone, Copy, Debug, PartialEq, Eq, Structural)]
pub enum RoleManagement {
    Admin,
    Developer,
}

/// A text names no role.
#[derive(Debug)]
pub struct ParseUserRoleError;

impl ParseUserRoleError {
    /// What went wrong, in words.
    pub fn message(&self) -> (text: &'static str)
        ensures
            text@ == "Invalid user role"@,
    {
        "Invalid user role"
    }
}

/// The small letter of an ASCII capital; any other character is left as it
/// is.
pub open spec fn small(c: char) -> char {
    if 'A' <= c && c <= 'Z' {
        ((c as u8) + 32) as char
    } else {
        c
    }
}

/// A text with its ASCII capitals made small.
pub open spec fn in_small(s: Seq<char>) -> Seq<char> {
    Seq::new(s.len(), |i: int| small(s[i]))
}

/// The role that a text names, whatever the case of its letters: `admin` or
/// `developer`.
pub open spec fn role_named(s: Seq<char>) -> Option<RoleManagement> {
    if in_small(s) == seq!['a', 'd', 'm', 'i', 'n'] {
        Some(RoleManagement::Admin)
    } else if in_small(s) == seq!['d', 'e', 'v', 'e', 'l', 'o', 'p', 'e', 'r'] {
        Some(RoleManagement::Developer)
    } else {
        None
    }
}

/// The small letter of an ASCII capital.
pub fn to_small(c: char) -> (s: char)
    ensures
        s == small(c),
{
    if 'A' <= c && c <= 'Z' {
        ((c as u8) + 32) as char
    } else {
        c
    }
}

impl RoleManagement {
    /// The role that a text names, whatever the case of its letters.
    pub fn from_text(s: &str) -> (role: Result<RoleManagement, ParseUserRoleError>)
        ensures
            match role_named(s@) {
                Some(named) => role == Ok::<RoleManagement, ParseUserRoleError>(named),
                None => role is Err,
            },
    {
        proof {
            reveal_strlit("admin");
            reveal_strlit("developer");
            assert("admin"@ =~= seq!['a', 'd', 'm', 'i', 'n']);
            assert("developer"@ =~= seq!['d', 'e', 'v', 'e', 'l', 'o', 'p', 'e', 'r']);
        }
        let chars = chars_of(s);
        let mut lowered: Vec<char> = Vec::new();
        let mut i: usize = 0;
        while i < chars.len()
            invariant
                i <= chars.len(),
                lowered@ == in_small(chars@).take(i as int),
            decreases chars.len() - i,
        {
            lowered.push(to_small(chars[i]));
            assert(lowered@ =~= in_small(chars@).take(i + 1));
            i = i + 1;
        }
        assert(in_small(chars@).take(chars.len() as int) =~= in_small(chars@));
        let admin = chars_of("admin");
        let developer = chars_of("developer");
        if same_chars(&lowered, &admin) {
            Ok(RoleManagement::Admin)
        } else if same_chars(&lowered, &developer) {
            Ok(RoleManagement::Developer)
        } else {
            Err(ParseUserRoleError)
        }
    }

    /// The name of the role.
    pub fn as_str(&self) -> (name: &'static str)
        ensures
            name@ == (match *self {
                RoleManagement::Admin => "Admin"@,
                RoleManagement::Developer => "Developer"@,
            }),
    {
        match self {
            RoleManagement::Admin => "Admin",
            RoleManagement::Developer => "Developer",
        }
    }

    /// Whether the role may add and remove users: an administrator may.
    pub fn can_manage_users(&self) -> (may: bool)
        ensures
            may == (*self == RoleManagement::Admin),
    {
        match self {
            RoleManagement::Admin => true,
            RoleManagement::Developer => false,
        }
    }

    /// Whether the role may read and write the store: every role may.
    pub fn can_manage_cache(&self) -> (may: bool)
        ensures
            may,
    {
        true
    }
}

impl FromStr for RoleManagement {
    type Err = ParseUserRoleError;

    /// The role that a text names, whatever the case of its letters.
    fn from_str(s: &str) -> (role: Result<Self, Self::Err>)
        ensures
            match role_named(s@) {
                Some(named) => role == Ok::<RoleManagement, ParseUserRoleError>(named),
                None => role is Err,
            },
    {
        RoleManagement::from_text(s)
    }
}

/// A user: a name, the encrypted password, and a role.
#[derive(Debug)]
pub struct User {
    pub username: String,
    pub password: Vec<u8>,
    pub role: RoleManagement,
}

/// A user as plain values.
pub struct UserModel {
    pub username: Name,
    pub password: Seq<u8>,
    pub role: RoleManagement,
}

impl View for User {
    type V = UserModel;

    open spec fn view(&self) -> UserModel {
        UserModel { username: self.username@, password: self.password@, role: self.role }
    }
}

impl User {
    /// A copy of the user.
    pub fn duplicate(&self) -> (copy: User)
        ensures
            copy@ == self@,
    {
        User {
            username: self.username.clone(),
            password: copy_bytes(&self.password),
            role: self.role,
        }
    }

    /// A copy of the user without the password.
    pub fn without_password(&self) -> (copy: User)
        ensures
            copy@ == (UserModel { password: Seq::empty(), ..self@ }),
    {
        User { username: self.username.clone(), password: Vec::new(), role: self.role }
    }
}

/// The outcome of an operation on the users, with a word on it.
#[derive(Clone, Copy, Debug)]
pub struct ACLResult<'a> {
    pub is_success: bool,
    pub message: &'a str,
}

impl<'a> ACLResult<'a> {
    /// A success.
    pub fn ok(message: &'a str) -> (result: Self)
        ensures
            result.is_success,
            result.message == message,
    {
        ACLResult { is_success: true, message }
    }

    /// A failure.
    pub fn faild(message: &'a str) -> (result: Self)
        ensures
            !result.is_success,
            result.message == message,
    {
        ACLResult { is_success: false, message }
    }
}

/// The key under which passwords are encrypted.
pub const ENCRYPT_KEY: &'static str = "QWERTYUIOPASdfgCBxzjfndeuAQwudhAsd";

/// The initialisation vector with which passwords are encrypted.
pub const IV_PATTERN: [u8; 16] = [2, 2, 5, 8, 5, 1, 3, 5, 6, 7, 9, 1, 6, 4, 1, 9];

/// The 32 bytes of the key under which passwords are encrypted.
pub open spec fn password_key() -> Seq<u8> {
    padded_key(encode_utf8(ENCRYPT_KEY@))
}

/// What is stored for a password: the initialisation vector followed by the
/// ciphertext of the password.
pub open spec fn stored_password(password: Seq<char>) -> Seq<u8> {
    IV_PATTERN@ + aes256_cbc_encrypted(password_key(), IV_PATTERN@, encode_utf8(password))
}

/// The users by name, in the order in which they were added.
pub open spec fn users_view(users: Seq<User>) -> Seq<(Name, UserModel)> {
    Seq::new(users.len(), |i: int| (users[i].username@, users[i]@))
}

/// Whether one who acts as `current` may add and remove users: an
/// administrator may, and so may one who acts as nobody.
pub open spec fn may_manage(current: Option<UserModel>) -> bool {
    match current {
        Some(user) => user.role == RoleManagement::Admin,
        None => true,
    }
}

/// The line that the users file holds for a user: the name, the bytes of
/// the encrypted password as a bracketed list, and the name of the role,
/// with colons between them.
pub open spec fn user_line_of(user: UserModel) -> Seq<char> {
    user.username + seq![':'] + value_text(user.password) + seq![':'] + (match user.role {
        RoleManagement::Admin => "Admin"@,
        RoleManagement::Developer => "Developer"@,
    })
}

/// The users and whether what is done with them is logged.
#[derive(Debug)]
pub struct CredsManager {
    pub users: Vec<User>,
    pub enable_log: bool,
}

impl View for CredsManager {
    type V = Seq<(Name, UserModel)>;

    open spec fn view(&self) -> Seq<(Name, UserModel)> {
        users_view(self.users@)
    }
}

impl CredsManager {
    /// A manager without users.
    pub fn new(enable_log: bool) -> (manager: Self)
        ensures
            manager@ == Seq::<(Name, UserModel)>::empty(),
            manager.enable_log == enable_log,
    {
        let manager = CredsManager { users: Vec::new(), enable_log };
        assert(manager@ =~= Seq::empty());
        manager
    }

    /// The place of the user called `username`.
    pub fn find_user(&self, username: &str) -> (place: Option<usize>)
        ensures
            match place {
                Some(i) => first_at(self@, username@, i as int) && i < self.users.len(),
                None => !binds(self@, username@),
            },
    {
        let mut i: usize = 0;
        while i < self.users.len()
            invariant
                i <= self.users.len(),
                forall|j: int| 0 <= j < i ==> (#[trigger] self@[j]).0 != username@,
            decreases self.users.len() - i,
        {
            if str_eq(self.users[i].username.as_str(), username) {
                return Some(i);
            }
            i = i + 1;
        }
        proof {
            lemma_missing(self@, username@);
        }
        None
    }

    /// The user called `username`, who must be known.
    pub fn get_user(&mut self, username: &str) -> (user: User)
        requires
            binds(old(self)@, username@),
        ensures
            Some(user@) == find(old(self)@, username@),
            final(self)@ == old(self)@,
            final(self).enable_log == old(self).enable_log,
    {
        match self.find_user(username) {
            Some(i) => {
                proof {
                    lemma_found(self@, username@, i as int);
                }
                self.users[i].duplicate()
            },
            None => User { username: String::new(), password: Vec::new(), role: RoleManagement::Developer },
        }
    }

    /// The line that the users file holds for the user called `username`.
    pub fn user_line(&self, username: &str) -> (line: Option<String>)
        ensures
            match find(self@, username@) {
                Some(user) => line matches Some(text) && text@ == user_line_of(user),
                None => line is None,
            },
    {
        match self.find_user(username) {
            None => None,
            Some(i) => {
                proof {
                    lemma_found(self@, username@, i as int);
                    reveal_strlit(":");
                }
                let user = &self.users[i];
                let mut line = user.username.clone();
                line.append(":");
                push_value_text(&mut line, &user.password);
                line.append(":");
                line.append(user.role.as_str());
                assert(line@ =~= user_line_of(user@));
                Some(line)
            },
        }
    }
}

} // verus!
