//! Reading a line of the log back into the command it stands for.
//!
//! A line is first freed of the double quotes around it. Its first field
//! names the verb. For a verb that carries a value, the bracketed list is
//! set apart before the line is cut into fields: closing brackets at the end
//! of the line are dropped, the list runs from the first opening bracket to
//! the first closing bracket after it, and the spaces within it are taken
//! out, so that the list is one field whatever its spacing.

use crate::convert::{le_signed, vec_to_i32};
use crate::persistent::chars::{
    chars_of, compact, fields, find_char, first_index, lemma_strip_back, pieces_view, same_chars,
    slice_chars, split_at_commas, split_commas, split_fields, squeeze, strip, strip_back,
    strip_both, text_of_chars,
};
use crate::persistent::command::{
    verb_clear_all, verb_clear_cluster, verb_decr, verb_del, verb_incr, verb_set, Command,
    CommandModel,
};
use vstd::prelude::*;

verus! {

/// The number that a decimal digit stands for.
pub open spec fn digit_value(c: char) -> Option<int> {
    if c == '0' {
        Some(0)
    } else if c == '1' {
        Some(1)
    } else if c == '2' {
        Some(2)
    } else if c == '3' {
        Some(3)
    } else if c == '4' {
        Some(4)
    } else if c == '5' {
        Some(5)
    } else if c == '6' {
        Some(6)
    } else if c == '7' {
        Some(7)
    } else if c == '8' {
        Some(8)
    } else if c == '9' {
        Some(9)
    } else {
        None
    }
}

/// The number that a run of decimal digits stands for. There is none for an
/// empty run, nor for one that holds anything but digits.
pub open spec fn decimal(s: Seq<char>) -> Option<int>
    decreases s.len(),
{
    if s.len() == 0 {
        None
    } else {
        match digit_value(s.last()) {
            None => None,
            Some(d) => if s.len() == 1 {
                Some(d)
            } else {
                match decimal(s.drop_last()) {
                    Some(v) => Some(10 * v + d),
                    None => None,
                }
            },
        }
    }
}

/// The byte that a piece of a list stands for: a run of decimal digits, after
/// a plus sign or none, that stands for a number up to 255.
pub open spec fn byte_of(s: Seq<char>) -> Option<u8> {
    match decimal(
        if s.len() > 0 && s[0] == '+' {
            s.drop_first()
        } else {
            s
        },
    ) {
        Some(v) => if v <= 255 {
            Some(v as u8)
        } else {
            None
        },
        None => None,
    }
}

/// The bytes that the pieces of a list stand for, where each stands for one.
pub open spec fn all_bytes(items: Seq<Seq<char>>) -> Option<Seq<u8>>
    decreases items.len(),
{
    if items.len() == 0 {
        Some(Seq::empty())
    } else {
        match (all_bytes(items.drop_last()), byte_of(items.last())) {
            (Some(bytes), Some(b)) => Some(bytes.push(b)),
            _ => None,
        }
    }
}

/// The bytes that the text of a list stands for: none for the empty text,
/// else one for each piece between commas.
pub open spec fn bytes_of(text: Seq<char>) -> Option<Seq<u8>> {
    if text.len() == 0 {
        Some(Seq::empty())
    } else {
        all_bytes(split_commas(text))
    }
}

/// A line with its list set apart: closing brackets at the end are dropped,
/// and the text from the first opening bracket to the first closing bracket
/// after it stands between one pair of brackets, without its spaces. A line
/// without an opening bracket gets an empty pair at its end.
pub open spec fn rebuilt(line: Seq<char>) -> Seq<char> {
    let text = strip_back(line, ']', ']');
    match first_index(text, '[') {
        None => text + seq!['[', ']'],
        Some(i) => match first_index(text.skip(i + 1), ']') {
            None => text.take(i) + seq!['['] + compact(text.skip(i + 1)) + seq![']'],
            Some(j) => text.take(i) + seq!['['] + compact(text.skip(i + 1).take(j)) + seq![']']
                + text.skip(i + 1).skip(j + 1),
        },
    }
}

/// The command that a line with the verb `verb` and a value stands for: the
/// line with its list set apart must have four fields, and the last, without
/// the brackets around it, must stand for bytes; for a counter, for four.
pub open spec fn valued(verb: Seq<char>, line: Seq<char>) -> Option<CommandModel> {
    let parts = fields(rebuilt(line));
    if parts.len() == 4 {
        match bytes_of(strip_both(parts[3], '[', ']')) {
            Some(bytes) => if verb == verb_set() {
                Some(CommandModel::SetValue { cluster: parts[1], key: parts[2], value: bytes })
            } else if bytes.len() != 4 {
                None
            } else if verb == verb_incr() {
                Some(
                    CommandModel::Incr { cluster: parts[1], key: parts[2], result: le_signed(bytes) },
                )
            } else {
                Some(
                    CommandModel::Decr { cluster: parts[1], key: parts[2], result: le_signed(bytes) },
                )
            },
            None => None,
        }
    } else {
        None
    }
}

/// The command that a line stands for, or none where the line is malformed.
pub open spec fn parsed(line: Seq<char>) -> Option<CommandModel> {
    let text = strip_both(line, '"', '"');
    let parts = fields(text);
    if parts.len() == 0 {
        None
    } else if parts[0] == verb_set() || parts[0] == verb_incr() || parts[0] == verb_decr() {
        valued(parts[0], text)
    } else if parts[0] == verb_del() {
        if parts.len() == 3 {
            Some(CommandModel::Del { cluster: parts[1], key: parts[2] })
        } else {
            None
        }
    } else if parts[0] == verb_clear_cluster() {
        if parts.len() == 2 {
            Some(CommandModel::ClearCluster { cluster: parts[1] })
        } else {
            None
        }
    } else if parts[0] == verb_clear_all() {
        Some(CommandModel::ClearAll)
    } else {
        None
    }
}

/// The number that a decimal digit stands for.
pub fn digit_of(c: char) -> (d: Option<u32>)
    ensures
        match digit_value(c) {
            Some(v) => d == Some(v as u32),
            None => d is None,
        },
{
    if c == '0' {
        Some(0)
    } else if c == '1' {
        Some(1)
    } else if c == '2' {
        Some(2)
    } else if c == '3' {
        Some(3)
    } else if c == '4' {
        Some(4)
    } else if c == '5' {
        Some(5)
    } else if c == '6' {
        Some(6)
    } else if c == '7' {
        Some(7)
    } else if c == '8' {
        Some(8)
    } else if c == '9' {
        Some(9)
    } else {
        None
    }
}

/// The number of a run of digits is not negative.
pub proof fn lemma_decimal_nonnegative(s: Seq<char>)
    ensures
        decimal(s) matches Some(v) ==> v >= 0,
    decreases s.len(),
{
    if s.len() > 1 {
        lemma_decimal_nonnegative(s.drop_last());
    }
}

/// One more character of a run of digits.
pub proof fn lemma_decimal_step(s: Seq<char>, k: int)
    requires
        0 < k < s.len(),
    ensures
        decimal(s.take(k + 1)) == (match (decimal(s.take(k)), digit_value(s[k])) {
            (Some(v), Some(d)) => Some(10 * v + d),
            _ => None,
        }),
{
    let head = s.take(k + 1);
    assert(head.drop_last() =~= s.take(k));
    assert(head.last() == s[k]);
}

/// The byte that a piece of a list stands for.
pub fn parse_byte(piece: &Vec<char>) -> (byte: Option<u8>)
    ensures
        byte == byte_of(piece@),
{
    let from: usize = if piece.len() > 0 && piece[0] == '+' {
        1
    } else {
        0
    };
    let ghost body = piece@.skip(from as int);
    proof {
        if from == 1 {
            assert(body =~= piece@.drop_first());
        } else {
            assert(body =~= piece@);
        }
    }
    if from == piece.len() {
        return None;
    }
    let mut value: u32 = match digit_of(piece[from]) {
        Some(d) => d,
        None => {
            proof {
                assert(body.take(1).last() == body[0]);
                lemma_digits_needed(body, 0);
            }
            return None;
        },
    };
    let mut i: usize = from + 1;
    proof {
        assert(body.take(1).last() == body[0]);
    }
    while i < piece.len()
        invariant
            from < i <= piece.len(),
            body == piece@.skip(from as int),
            body == (if piece@.len() > 0 && piece@[0] == '+' {
                piece@.drop_first()
            } else {
                piece@
            }),
            decimal(body.take(i - from)) matches Some(v) && (if v <= 255 {
                value == v
            } else {
                value == 256
            }),
        decreases piece.len() - i,
    {
        proof {
            lemma_decimal_step(body, i - from);
            lemma_decimal_nonnegative(body.take(i - from));
            assert(body[i - from] == piece@[i as int]);
        }
        match digit_of(piece[i]) {
            Some(d) => {
                if value <= 255 {
                    value = 10 * value + d;
                    if value > 255 {
                        value = 256;
                    }
                }
            },
            None => {
                proof {
                    lemma_digits_needed(body, i - from);
                }
                return None;
            },
        }
        i = i + 1;
    }
    assert(body.take(piece.len() - from) =~= body);
    if value <= 255 {
        Some(value as u8)
    } else {
        None
    }
}

/// A run that holds a character which is no digit stands for no number.
pub proof fn lemma_digits_needed(s: Seq<char>, k: int)
    requires
        0 <= k < s.len(),
        digit_value(s[k]) is None,
    ensures
        decimal(s) is None,
    decreases s.len(),
{
    if k < s.len() - 1 {
        lemma_digits_needed(s.drop_last(), k);
    }
}

/// The bytes that the text of a list stands for.
pub fn parse_bytes(text: &Vec<char>) -> (bytes: Option<Vec<u8>>)
    ensures
        match bytes_of(text@) {
            Some(b) => bytes matches Some(found) && found@ == b,
            None => bytes is None,
        },
{
    let mut bytes: Vec<u8> = Vec::new();
    if text.len() == 0 {
        return Some(bytes);
    }
    let pieces = split_at_commas(text);
    let ghost items = pieces_view(pieces@);
    let mut i: usize = 0;
    assert(items.take(0) =~= Seq::empty());
    while i < pieces.len()
        invariant
            i <= pieces.len(),
            items == pieces_view(pieces@),
            items == split_commas(text@),
            text@.len() > 0,
            all_bytes(items.take(i as int)) == Some(bytes@),
        decreases pieces.len() - i,
    {
        proof {
            let head = items.take(i + 1);
            assert(head.drop_last() =~= items.take(i as int));
            assert(head.last() == pieces@[i as int]@);
        }
        match parse_byte(&pieces[i]) {
            Some(b) => {
                bytes.push(b);
            },
            None => {
                proof {
                    lemma_bytes_needed(items, i as int);
                }
                return None;
            },
        }
        i = i + 1;
    }
    assert(items.take(pieces.len() as int) =~= items);
    Some(bytes)
}

/// A list with a piece that stands for no byte stands for no bytes.
pub proof fn lemma_bytes_needed(items: Seq<Seq<char>>, k: int)
    requires
        0 <= k < items.len(),
        byte_of(items[k]) is None,
    ensures
        all_bytes(items) is None,
    decreases items.len(),
{
    if k < items.len() - 1 {
        lemma_bytes_needed(items.drop_last(), k);
    }
}

/// Adds the characters of `more` at the end of `chars`.
pub fn extend_chars(chars: &mut Vec<char>, more: &Vec<char>)
    ensures
        final(chars)@ == old(chars)@ + more@,
{
    let mut i: usize = 0;
    assert(chars@ =~= old(chars)@ + more@.take(0));
    while i < more.len()
        invariant
            i <= more.len(),
            chars@ == old(chars)@ + more@.take(i as int),
        decreases more.len() - i,
    {
        chars.push(more[i]);
        assert(chars@ =~= old(chars)@ + more@.take(i + 1));
        i = i + 1;
    }
    assert(more@.take(more.len() as int) =~= more@);
}

/// A line with its list set apart.
pub fn rebuild(line: &Vec<char>) -> (text: Vec<char>)
    ensures
        text@ == rebuilt(line@),
{
    let mut end: usize = line.len();
    while end > 0 && line[end - 1] == ']'
        invariant
            end <= line.len(),
            forall|j: int| end <= j < line.len() ==> #[trigger] line@[j] == ']',
        decreases end,
    {
        end = end - 1;
    }
    proof {
        lemma_strip_back(line@, ']', ']', end as int);
    }
    let kept = slice_chars(line, 0, end);
    assert(kept@ =~= strip_back(line@, ']', ']'));
    match find_char(&kept, '[') {
        None => {
            let mut text = kept;
            text.push('[');
            text.push(']');
            assert(text@ =~= kept@ + seq!['[', ']']);
            text
        },
        Some(i) => {
            let mut text = slice_chars(&kept, 0, i);
            let rest = slice_chars(&kept, i + 1, kept.len());
            assert(rest@ =~= kept@.skip(i + 1));
            assert(text@ =~= kept@.take(i as int));
            text.push('[');
            match find_char(&rest, ']') {
                None => {
                    let inside = squeeze(&rest);
                    extend_chars(&mut text, &inside);
                    text.push(']');
                    assert(text@ =~= kept@.take(i as int) + seq!['['] + compact(rest@) + seq![']']);
                    text
                },
                Some(j) => {
                    let listed = slice_chars(&rest, 0, j);
                    assert(listed@ =~= rest@.take(j as int));
                    let inside = squeeze(&listed);
                    extend_chars(&mut text, &inside);
                    text.push(']');
                    let tail = slice_chars(&rest, j + 1, rest.len());
                    assert(tail@ =~= rest@.skip(j + 1));
                    extend_chars(&mut text, &tail);
                    assert(text@ =~= kept@.take(i as int) + seq!['['] + compact(
                        rest@.take(j as int),
                    ) + seq![']'] + rest@.skip(j + 1));
                    text
                },
            }
        },
    }
}

/// Whether the characters spell `word`.
pub fn spells(chars: &Vec<char>, word: &str) -> (same: bool)
    ensures
        same == (chars@ == word@),
{
    let other = chars_of(word);
    same_chars(chars, &other)
}

/// The command that a line with a value stands for; `verb` is 0 for `SET`, 1
/// for `INCR` and 2 for `DECR`.
pub fn parse_valued(verb: u8, line: &Vec<char>) -> (command: Option<Command>)
    requires
        verb <= 2,
    ensures
        match valued(
            if verb == 0 {
                verb_set()
            } else if verb == 1 {
                verb_incr()
            } else {
                verb_decr()
            },
            line@,
        ) {
            Some(c) => command matches Some(found) && found@ == c,
            None => command is None,
        },
{
    let text = rebuild(line);
    let parts = split_fields(&text);
    if parts.len() != 4 {
        return None;
    }
    let listed = strip(&parts[3], '[', ']');
    match parse_bytes(&listed) {
        None => None,
        Some(bytes) => {
            let cluster = text_of_chars(&parts[1]);
            let key = text_of_chars(&parts[2]);
            if verb == 0 {
                Some(Command::SetValue { cluster, key, value: bytes })
            } else {
                match vec_to_i32(bytes) {
                    None => None,
                    Some(result) => if verb == 1 {
                        Some(Command::Incr { cluster, key, result })
                    } else {
                        Some(Command::Decr { cluster, key, result })
                    },
                }
            }
        },
    }
}

/// The command that a line of the log stands for, or none where the line
/// is malformed.
pub fn parse_line(line: &str) -> (command: Option<Command>)
    ensures
        match parsed(line@) {
            Some(c) => command matches Some(found) && found@ == c,
            None => command is None,
        },
{
    proof {
        reveal_strlit("SET");
        reveal_strlit("INCR");
        reveal_strlit("DECR");
        reveal_strlit("DEL");
        reveal_strlit("CLEAR_CLUSTER");
        reveal_strlit("CLEAR_ALL");
        assert("SET"@ =~= verb_set());
        assert("INCR"@ =~= verb_incr());
        assert("DECR"@ =~= verb_decr());
        assert("DEL"@ =~= verb_del());
        assert("CLEAR_CLUSTER"@ =~= verb_clear_cluster());
        assert("CLEAR_ALL"@ =~= verb_clear_all());
    }
    let raw = chars_of(line);
    let text = strip(&raw, '"', '"');
    let parts = split_fields(&text);
    if parts.len() == 0 {
        None
    } else if spells(&parts[0], "SET") {
        parse_valued(0, &text)
    } else if spells(&parts[0], "INCR") {
        parse_valued(1, &text)
    } else if spells(&parts[0], "DECR") {
        parse_valued(2, &text)
    } else if spells(&parts[0], "DEL") {
        if parts.len() == 3 {
            Some(
                Command::Del { cluster: text_of_chars(&parts[1]), key: text_of_chars(&parts[2]) },
            )
        } else {
            None
        }
    } else if spells(&parts[0], "CLEAR_CLUSTER") {
        if parts.len() == 2 {
            Some(Command::ClearCluster { cluster: text_of_chars(&parts[1]) })
        } else {
            None
        }
    } else if spells(&parts[0], "CLEAR_ALL") {
        Some(Command::ClearAll)
    } else {
        None
    }
}

} // verus!
