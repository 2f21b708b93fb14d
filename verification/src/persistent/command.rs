//! The commands of the log and the text that stands for each.
//!
//! A line is made of fields separated by blanks. The first field is the verb.
//! `SET`, `INCR` and `DECR` carry a cluster, a key and a bracketed list of
//! byte values in decimal; for `INCR` and `DECR` the bytes are the
//! little-endian form of the number the counter came to hold.

use crate::assoc::Name;
use crate::convert::{i32_to_vec, le_bytes};
use vstd::prelude::*;
use vstd::string::*;

verus! {

/// A mutation as the log records it.
#[derive(Debug)]
pub enum Command {
    /// Bind `key` of `cluster` to `value`, without a time to live.
    SetValue { cluster: String, key: String, value: Vec<u8> },
    /// The counter `key` of `cluster` was raised and came to hold `value`.
    Incr { cluster: String, key: String, result: i32 },
    /// The counter `key` of `cluster` was lowered and came to hold `value`.
    Decr { cluster: String, key: String, result: i32 },
    /// Remove `key` from `cluster`.
    Del { cluster: String, key: String },
    /// Remove `cluster` and all it holds.
    ClearCluster { cluster: String },
    /// Remove every cluster.
    ClearAll,
}

/// What a [`Command`] says, as plain values.
pub enum CommandModel {
    SetValue { cluster: Name, key: Name, value: Seq<u8> },
    Incr { cluster: Name, key: Name, result: int },
    Decr { cluster: Name, key: Name, result: int },
    Del { cluster: Name, key: Name },
    ClearCluster { cluster: Name },
    ClearAll,
}

impl View for Command {
    type V = CommandModel;

    open spec fn view(&self) -> CommandModel {
        match self {
            Command::SetValue { cluster, key, value } => CommandModel::SetValue {
                cluster: cluster@,
                key: key@,
                value: value@,
            },
            Command::Incr { cluster, key, result } => CommandModel::Incr {
                cluster: cluster@,
                key: key@,
                result: *result as int,
            },
            Command::Decr { cluster, key, result } => CommandModel::Decr {
                cluster: cluster@,
                key: key@,
                result: *result as int,
            },
            Command::Del { cluster, key } => CommandModel::Del { cluster: cluster@, key: key@ },
            Command::ClearCluster { cluster } => CommandModel::ClearCluster { cluster: cluster@ },
            Command::ClearAll => CommandModel::ClearAll,
        }
    }
}

/// The character that stands for the decimal digit `d`.
pub open spec fn digit_char(d: int) -> char {
    if d == 0 {
        '0'
    } else if d == 1 {
        '1'
    } else if d == 2 {
        '2'
    } else if d == 3 {
        '3'
    } else if d == 4 {
        '4'
    } else if d == 5 {
        '5'
    } else if d == 6 {
        '6'
    } else if d == 7 {
        '7'
    } else if d == 8 {
        '8'
    } else {
        '9'
    }
}

/// A byte in decimal, without leading zeros.
pub open spec fn byte_text(b: u8) -> Seq<char> {
    if b < 10 {
        seq![digit_char(b as int)]
    } else if b < 100 {
        seq![digit_char(b as int / 10), digit_char(b as int % 10)]
    } else {
        seq![digit_char(b as int / 100), digit_char((b as int / 10) % 10), digit_char(b as int % 10)]
    }
}

/// The bytes in decimal, each but the first after a comma and a blank.
pub open spec fn list_text(bytes: Seq<u8>) -> Seq<char>
    decreases bytes.len(),
{
    if bytes.len() == 0 {
        Seq::empty()
    } else if bytes.len() == 1 {
        byte_text(bytes[0])
    } else {
        list_text(bytes.drop_last()) + seq![',', ' '] + byte_text(bytes.last())
    }
}

/// The bytes as the log writes a value: their list between brackets.
pub open spec fn value_text(bytes: Seq<u8>) -> Seq<char> {
    seq!['['] + list_text(bytes) + seq![']']
}

/// The text of the verb `SET`.
pub open spec fn verb_set() -> Seq<char> {
    seq!['S', 'E', 'T']
}

/// The text of the verb `INCR`.
pub open spec fn verb_incr() -> Seq<char> {
    seq!['I', 'N', 'C', 'R']
}

/// The text of the verb `DECR`.
pub open spec fn verb_decr() -> Seq<char> {
    seq!['D', 'E', 'C', 'R']
}

/// The text of the verb `DEL`.
pub open spec fn verb_del() -> Seq<char> {
    seq!['D', 'E', 'L']
}

/// The text of the verb `CLEAR_CLUSTER`.
pub open spec fn verb_clear_cluster() -> Seq<char> {
    seq!['C', 'L', 'E', 'A', 'R', '_', 'C', 'L', 'U', 'S', 'T', 'E', 'R']
}

/// The text of the verb `CLEAR_ALL`.
pub open spec fn verb_clear_all() -> Seq<char> {
    seq!['C', 'L', 'E', 'A', 'R', '_', 'A', 'L', 'L']
}

/// A verb, a cluster, a key and a value, with one blank between them.
pub open spec fn valued_line(verb: Seq<char>, cluster: Name, key: Name, value: Seq<u8>) -> Seq<
    char,
> {
    verb + seq![' '] + cluster + seq![' '] + key + seq![' '] + value_text(value)
}

/// The line that the log holds for a command.
pub open spec fn line_of(command: CommandModel) -> Seq<char> {
    match command {
        CommandModel::SetValue { cluster, key, value } => valued_line(verb_set(), cluster, key, value),
        CommandModel::Incr { cluster, key, result } => valued_line(
            verb_incr(),
            cluster,
            key,
            le_bytes(result),
        ),
        CommandModel::Decr { cluster, key, result } => valued_line(
            verb_decr(),
            cluster,
            key,
            le_bytes(result),
        ),
        CommandModel::Del { cluster, key } => verb_del() + seq![' '] + cluster + seq![' '] + key,
        CommandModel::ClearCluster { cluster } => verb_clear_cluster() + seq![' '] + cluster,
        CommandModel::ClearAll => verb_clear_all(),
    }
}

/// The text of one decimal digit.
pub fn digit_str(d: u8) -> (text: &'static str)
    requires
        d < 10,
    ensures
        text@ == seq![digit_char(d as int)],
{
    proof {
        reveal_strlit("0");
        reveal_strlit("1");
        reveal_strlit("2");
        reveal_strlit("3");
        reveal_strlit("4");
        reveal_strlit("5");
        reveal_strlit("6");
        reveal_strlit("7");
        reveal_strlit("8");
        reveal_strlit("9");
    }
    let text = match d {
        0 => "0",
        1 => "1",
        2 => "2",
        3 => "3",
        4 => "4",
        5 => "5",
        6 => "6",
        7 => "7",
        8 => "8",
        _ => "9",
    };
    assert(text@ =~= seq![digit_char(d as int)]);
    text
}

/// Writes a byte in decimal at the end of `line`.
pub fn push_byte_text(line: &mut String, b: u8)
    ensures
        final(line)@ == old(line)@ + byte_text(b),
{
    if b >= 100 {
        line.append(digit_str(b / 100));
    }
    if b >= 10 {
        line.append(digit_str((b / 10) % 10));
    }
    line.append(digit_str(b % 10));
    assert(line@ =~= old(line)@ + byte_text(b));
}

/// Writes a value at the end of `line`: the list of its bytes between
/// brackets.
pub fn push_value_text(line: &mut String, bytes: &Vec<u8>)
    ensures
        final(line)@ == old(line)@ + value_text(bytes@),
{
    proof {
        reveal_strlit("[");
        reveal_strlit("]");
    }
    line.append("[");
    let mut i: usize = 0;
    assert(bytes@.take(0) =~= Seq::empty());
    assert(line@ =~= old(line)@ + seq!['['] + list_text(bytes@.take(0)));
    while i < bytes.len()
        invariant
            i <= bytes.len(),
            line@ == old(line)@ + seq!['['] + list_text(bytes@.take(i as int)),
        decreases bytes.len() - i,
    {
        let ghost before = line@;
        if i > 0 {
            line.append(", ");
        }
        push_byte_text(line, bytes[i]);
        proof {
            let head = bytes@.take(i + 1);
            assert(head.drop_last() =~= bytes@.take(i as int));
            assert(head.last() == bytes[i as int]);
            reveal_strlit(", ");
            assert(", "@ =~= seq![',', ' ']);
            assert(line@ =~= old(line)@ + seq!['['] + list_text(head));
        }
        i = i + 1;
    }
    assert(bytes@.take(bytes.len() as int) =~= bytes@);
    line.append("]");
    assert(line@ =~= old(line)@ + value_text(bytes@));
}

/// The line of a command that carries a value.
pub fn valued_line_text(verb: &str, cluster: &str, key: &str, value: &Vec<u8>) -> (line: String)
    ensures
        line@ == valued_line(verb@, cluster@, key@, value@),
{
    proof {
        reveal_strlit(" ");
    }
    let mut line = String::from_str(verb);
    line.append(" ");
    line.append(cluster);
    line.append(" ");
    line.append(key);
    line.append(" ");
    assert(line@ =~= verb@ + seq![' '] + cluster@ + seq![' '] + key@ + seq![' ']);
    push_value_text(&mut line, value);
    line
}

/// The line that records that `key` of `cluster` was bound to `value`.
pub fn set_line(cluster: &str, key: &str, value: &Vec<u8>) -> (line: String)
    ensures
        line@ == line_of(CommandModel::SetValue { cluster: cluster@, key: key@, value: value@ }),
{
    proof {
        reveal_strlit("SET");
    }
    assert("SET"@ =~= verb_set());
    valued_line_text("SET", cluster, key, value)
}

/// The line that records that the counter `key` of `cluster` was raised and
/// came to hold `result`.
pub fn incr_line(cluster: &str, key: &str, result: i32) -> (line: String)
    ensures
        line@ == line_of(
            CommandModel::Incr { cluster: cluster@, key: key@, result: result as int },
        ),
{
    proof {
        reveal_strlit("INCR");
    }
    assert("INCR"@ =~= verb_incr());
    let bytes = i32_to_vec(result);
    valued_line_text("INCR", cluster, key, &bytes)
}

/// The line that records that the counter `key` of `cluster` was lowered and
/// came to hold `result`.
pub fn decr_line(cluster: &str, key: &str, result: i32) -> (line: String)
    ensures
        line@ == line_of(
            CommandModel::Decr { cluster: cluster@, key: key@, result: result as int },
        ),
{
    proof {
        reveal_strlit("DECR");
    }
    assert("DECR"@ =~= verb_decr());
    let bytes = i32_to_vec(result);
    valued_line_text("DECR", cluster, key, &bytes)
}

/// The line that records that `key` was removed from `cluster`.
pub fn del_line(cluster: &str, key: &str) -> (line: String)
    ensures
        line@ == line_of(CommandModel::Del { cluster: cluster@, key: key@ }),
{
    proof {
        reveal_strlit("DEL");
        reveal_strlit(" ");
    }
    let mut line = String::from_str("DEL");
    line.append(" ");
    line.append(cluster);
    line.append(" ");
    line.append(key);
    assert(line@ =~= verb_del() + seq![' '] + cluster@ + seq![' '] + key@);
    line
}

/// The line that records that `cluster` was removed.
pub fn clear_cluster_line(cluster: &str) -> (line: String)
    ensures
        line@ == line_of(CommandModel::ClearCluster { cluster: cluster@ }),
{
    proof {
        reveal_strlit("CLEAR_CLUSTER");
        reveal_strlit(" ");
    }
    let mut line = String::from_str("CLEAR_CLUSTER");
    line.append(" ");
    line.append(cluster);
    assert(line@ =~= verb_clear_cluster() + seq![' '] + cluster@);
    line
}

/// The line that records that every cluster was removed.
pub fn clear_all_line() -> (line: String)
    ensures
        line@ == line_of(CommandModel::ClearAll),
{
    proof {
        reveal_strlit("CLEAR_ALL");
    }
    let line = String::from_str("CLEAR_ALL");
    assert(line@ =~= verb_clear_all());
    line
}

impl Command {
    /// The line that the log holds for the command.
    pub fn line(&self) -> (line: String)
        ensures
            line@ == line_of(self@),
    {
        match self {
            Command::SetValue { cluster, key, value } => set_line(
                cluster.as_str(),
                key.as_str(),
                value,
            ),
            Command::Incr { cluster, key, result } => incr_line(
                cluster.as_str(),
                key.as_str(),
                *result,
            ),
            Command::Decr { cluster, key, result } => decr_line(
                cluster.as_str(),
                key.as_str(),
                *result,
            ),
            Command::Del { cluster, key } => del_line(cluster.as_str(), key.as_str()),
            Command::ClearCluster { cluster } => clear_cluster_line(cluster.as_str()),
            Command::ClearAll => clear_all_line(),
        }
    }
}

} // verus!
