//! Reading the users file.
//!
//! A line holds a name, the bytes of the encrypted password as a bracketed
//! list, and the name of a role, with colons between them.

use crate::assoc::{put, Name};
use crate::cache::cache::lines_view;
use crate::creds::cred_manager::{
    role_named, ACLResult, CredsManager, RoleManagement, User, UserModel,
};
use crate::persistent::chars::{
    chars_of, compact, pieces_view, split_at_mark, split_on, squeeze, strip, strip_both,
    text_of_chars,
};
use crate::persistent::parse::{byte_of, parse_byte};
use vstd::prelude::*;

verus! {

/// The bytes that the pieces of a list stand for; a piece that stands for no
/// byte counts as zero.
pub open spec fn lenient_bytes(items: Seq<Seq<char>>) -> Seq<u8> {
    Seq::new(
        items.len(),
        |i: int|
            match byte_of(items[i]) {
                Some(b) => b,
                None => 0u8,
            },
    )
}

/// The bytes that the field of a password stands for: the list between the
/// brackets, its pieces between commas, spaces left aside.
pub open spec fn password_bytes(field: Seq<char>) -> Seq<u8> {
    lenient_bytes(split_on(compact(strip_both(field, '[', ']')), ','))
}

/// What a line of the users file says.
pub enum LineReading {
    /// The line names a user.
    Named(UserModel),
    /// The line has three fields, but the third names no role.
    BadRole,
    /// The line has not three fields.
    BadLine,
}

/// What a line of the users file says.
pub open spec fn read_line(line: Seq<char>) -> LineReading {
    let parts = split_on(line, ':');
    if parts.len() == 3 {
        match role_named(parts[2]) {
            Some(role) => LineReading::Named(
                UserModel { username: parts[0], password: password_bytes(parts[1]), role },
            ),
            None => LineReading::BadRole,
        }
    } else {
        LineReading::BadLine
    }
}

/// The users after `lines` were read in turn; reading stops at the first
/// line that names no user.
pub open spec fn users_after(users: Seq<(Name, UserModel)>, lines: Seq<Seq<char>>) -> Seq<
    (Name, UserModel),
>
    decreases lines.len(),
{
    if lines.len() == 0 {
        users
    } else {
        match read_line(lines[0]) {
            LineReading::Named(user) => users_after(
                put(users, user.username, user),
                lines.drop_first(),
            ),
            _ => users,
        }
    }
}

/// What reading `lines` in turn ends with: the reading of the first line
/// that names no user, or none where every line names one.
pub open spec fn first_failure(lines: Seq<Seq<char>>) -> Option<LineReading>
    decreases lines.len(),
{
    if lines.len() == 0 {
        None
    } else {
        match read_line(lines[0]) {
            LineReading::Named(_) => first_failure(lines.drop_first()),
            other => Some(other),
        }
    }
}

/// The bytes that the field of a password stands for.
pub fn parse_password(field: &Vec<char>) -> (bytes: Vec<u8>)
    ensures
        bytes@ == password_bytes(field@),
{
    let listed = squeeze(&strip(field, '[', ']'));
    let pieces = split_at_mark(&listed, ',');
    let ghost items = pieces_view(pieces@);
    let mut bytes: Vec<u8> = Vec::new();
    let mut i: usize = 0;
    while i < pieces.len()
        invariant
            i <= pieces.len(),
            items == pieces_view(pieces@),
            bytes@ == lenient_bytes(items).take(i as int),
        decreases pieces.len() - i,
    {
        let b = match parse_byte(&pieces[i]) {
            Some(b) => b,
            None => 0,
        };
        bytes.push(b);
        assert(bytes@ =~= lenient_bytes(items).take(i + 1));
        i = i + 1;
    }
    assert(lenient_bytes(items).take(pieces.len() as int) =~= lenient_bytes(items));
    bytes
}

/// Reading the users file.
pub trait LoadUserFromFile {
    /// Reads the lines of the users file in turn and adds the user that
    /// each names. Reading stops at the first line that names none.
    fn load_users_from_file(&mut self, lines: &Vec<String>) -> ACLResult<'static>;
}

impl LoadUserFromFile for CredsManager {
    fn load_users_from_file(&mut self, lines: &Vec<String>) -> (result: ACLResult<'static>)
        ensures
            final(self).enable_log == old(self).enable_log,
            final(self)@ == users_after(old(self)@, lines_view(lines@)),
            result.is_success == first_failure(lines_view(lines@)) is None,
            result.message@ == (match first_failure(lines_view(lines@)) {
                None => "Users loaded successfully"@,
                Some(LineReading::BadRole) => "invalid role format"@,
                Some(_) => "invalid line format"@,
            }),
    {
        let ghost all = lines_view(lines@);
        let mut i: usize = 0;
        assert(all.skip(0) =~= all);
        while i < lines.len()
            invariant
                i <= lines.len(),
                all == lines_view(lines@),
                self.enable_log == old(self).enable_log,
                users_after(self@, all.skip(i as int)) == users_after(old(self)@, all),
                first_failure(all.skip(i as int)) == first_failure(all),
            decreases lines.len() - i,
        {
            proof {
                let rest = all.skip(i as int);
                assert(rest[0] == lines@[i as int]@);
                assert(rest.drop_first() =~= all.skip(i + 1));
            }
            let line = chars_of(lines[i].as_str());
            let parts = split_at_mark(&line, ':');
            if parts.len() == 3 {
                let role = match RoleManagement::from_text(text_of_chars(&parts[2]).as_str()) {
                    Ok(role) => role,
                    Err(_) => {
                        return ACLResult::faild("invalid role format");
                    },
                };
                let user = User {
                    username: text_of_chars(&parts[0]),
                    password: parse_password(&parts[1]),
                    role,
                };
                self.put_user(user);
            } else {
                return ACLResult::faild("invalid line format");
            }
            i = i + 1;
        }
        ACLResult::ok("Users loaded successfully")
    }
}

} // verus!
