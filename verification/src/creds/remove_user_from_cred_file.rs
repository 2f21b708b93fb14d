//! Taking a user out of the users file.

use crate::cache::cache::lines_view;
use crate::creds::cred_manager::CredsManager;
use crate::persistent::chars::chars_of;
use vstd::prelude::*;

verus! {

/// The lines that do not begin with `username`, in their order.
pub open spec fn lines_without(lines: Seq<Seq<char>>, username: Seq<char>) -> Seq<Seq<char>>
    decreases lines.len(),
{
    if lines.len() == 0 {
        lines
    } else if username.is_prefix_of(lines.last()) {
        lines_without(lines.drop_last(), username)
    } else {
        lines_without(lines.drop_last(), username).push(lines.last())
    }
}

/// Whether the characters of `line` begin with those of `start`.
pub fn begins_with(line: &Vec<char>, start: &Vec<char>) -> (begins: bool)
    ensures
        begins == start@.is_prefix_of(line@),
{
    if start.len() > line.len() {
        return false;
    }
    let mut i: usize = 0;
    while i < start.len()
        invariant
            i <= start.len(),
            start.len() <= line.len(),
            forall|j: int| 0 <= j < i ==> start@[j] == line@[j],
        decreases start.len() - i,
    {
        if start[i] != line[i] {
            assert(line@.subrange(0, start@.len() as int)[i as int] != start@[i as int]);
            return false;
        }
        i = i + 1;
    }
    assert(start@ =~= line@.subrange(0, start@.len() as int));
    true
}

/// Taking a user out of the users file.
pub trait RemoveUserFromCredFile {
    /// The lines of the users file that are to stay when the user called
    /// `username` is taken out: those that do not begin with the name.
    fn remove_user_from_file(&self, lines: &Vec<String>, username: &str) -> Vec<String>;
}

impl RemoveUserFromCredFile for CredsManager {
    fn remove_user_from_file(&self, lines: &Vec<String>, username: &str) -> (kept: Vec<String>)
        ensures
            lines_view(kept@) == lines_without(lines_view(lines@), username@),
    {
        let ghost all = lines_view(lines@);
        let start = chars_of(username);
        let mut kept: Vec<String> = Vec::new();
        let mut i: usize = 0;
        assert(all.take(0) =~= Seq::empty());
        assert(lines_view(kept@) =~= lines_without(all.take(0), username@));
        while i < lines.len()
            invariant
                i <= lines.len(),
                all == lines_view(lines@),
                start@ == username@,
                lines_view(kept@) == lines_without(all.take(i as int), username@),
            decreases lines.len() - i,
        {
            proof {
                let head = all.take(i + 1);
                assert(head.drop_last() =~= all.take(i as int));
                assert(head.last() == lines@[i as int]@);
            }
            let line = chars_of(lines[i].as_str());
            if !begins_with(&line, &start) {
                let ghost so_far = lines_view(kept@);
                kept.push(lines[i].clone());
                assert(lines_view(kept@) =~= so_far.push(lines@[i as int]@));
            }
            i = i + 1;
        }
        assert(all.take(lines.len() as int) =~= all);
        kept
    }
}

} // verus!
