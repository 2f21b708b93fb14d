//! The log: what is written can be read back, and what is read back does
//! again what was done.

use crate::assoc::Name;
use crate::cache::incr::step_of;
use crate::cache::model::CacheModel;
use crate::persistent::chars::{
    compact, fields, first_char_at, first_index, is_blank, lemma_strip_back, lemma_strip_front,
    split_commas, split_on, strip_back, strip_both,
};
use crate::persistent::command::{
    byte_text, digit_char, line_of, list_text, value_text, valued_line, verb_clear_all,
    verb_clear_cluster, verb_decr, verb_del, verb_incr, verb_set, CommandModel,
};
use crate::persistent::parse::{all_bytes, byte_of, bytes_of, decimal, digit_value, parsed, rebuilt};
use vstd::prelude::*;

verus! {

/// No character of `s` is blank.
pub open spec fn unbroken(s: Seq<char>) -> bool {
    forall|i: int| 0 <= i < s.len() ==> !is_blank(#[trigger] s[i])
}

/// No character of `s` is `c`.
pub open spec fn free_of(s: Seq<char>, c: char) -> bool {
    forall|i: int| 0 <= i < s.len() ==> #[trigger] s[i] != c
}

/// A text that stands as one field: it is not empty and holds no blank.
pub open spec fn one_field(s: Seq<char>) -> bool {
    s.len() > 0 && unbroken(s)
}

/// A text that ends on a character which is not blank has a last field.
pub proof fn lemma_fields_nonempty(s: Seq<char>)
    requires
        s.len() > 0,
        !is_blank(s.last()),
    ensures
        fields(s).len() > 0,
    decreases s.len(),
{
    if s.len() > 1 && !is_blank(s[s.len() - 2]) {
        assert(s.drop_last().last() == s[s.len() - 2]);
        lemma_fields_nonempty(s.drop_last());
    }
}

/// The fields of two texts with a space between them are the fields of the
/// one followed by the fields of the other.
pub proof fn lemma_fields_concat(a: Seq<char>, b: Seq<char>)
    ensures
        fields(a + seq![' '] + b) == fields(a) + fields(b),
    decreases b.len(),
{
    let joined = a + seq![' '] + b;
    if b.len() == 0 {
        assert(joined.drop_last() =~= a);
        assert(fields(a) + fields(b) =~= fields(a));
    } else {
        let front = b.drop_last();
        let c = b.last();
        lemma_fields_concat(a, front);
        assert(joined.drop_last() =~= a + seq![' '] + front);
        assert(joined.last() == c);
        let before = fields(a + seq![' '] + front);
        if is_blank(c) {
        } else if front.len() == 0 {
            assert(joined[joined.len() - 2] == ' ');
            assert(fields(b) =~= seq![seq![c]]);
            assert(fields(joined) =~= fields(a) + fields(b));
        } else {
            assert(joined[joined.len() - 2] == front.last());
            assert(b[b.len() - 2] == front.last());
            if !is_blank(front.last()) {
                lemma_fields_nonempty(front);
                assert(before.last() == fields(front).last());
                assert(before.drop_last() =~= fields(a) + fields(front).drop_last());
                assert(fields(joined) =~= fields(a) + fields(b));
            } else {
                assert(fields(joined) =~= fields(a) + fields(b));
            }
        }
    }
}

/// A text that stands as one field has itself as its only field.
pub proof fn lemma_fields_one(s: Seq<char>)
    requires
        one_field(s),
    ensures
        fields(s) == seq![s],
    decreases s.len(),
{
    assert(!is_blank(s[s.len() - 1]));
    if s.len() == 1 {
        assert(fields(s.drop_last()) =~= Seq::empty());
        assert(s =~= seq![s.last()]);
        assert(fields(s) =~= seq![s]);
    } else {
        assert(!is_blank(s[s.len() - 2]));
        let front = s.drop_last();
        assert(unbroken(front)) by {
            assert forall|i: int| 0 <= i < front.len() implies !is_blank(#[trigger] front[i]) by {
                assert(front[i] == s[i]);
            }
        }
        lemma_fields_one(front);
        assert(s[s.len() - 2] == front.last());
        assert(front.push(s.last()) =~= s);
        assert(fields(s) =~= seq![s]);
    }
}

/// The fields of a field followed by a space and a text are the field and
/// the fields of the text.
pub proof fn lemma_fields_after(field: Seq<char>, rest: Seq<char>)
    requires
        one_field(field),
    ensures
        fields(field + seq![' '] + rest) == seq![field] + fields(rest),
{
    lemma_fields_concat(field, rest);
    lemma_fields_one(field);
}

/// Taking the spaces out of two texts joined is joining the two without
/// their spaces.
pub proof fn lemma_compact_concat(a: Seq<char>, b: Seq<char>)
    ensures
        compact(a + b) == compact(a) + compact(b),
    decreases b.len(),
{
    if b.len() == 0 {
        assert(a + b =~= a);
        assert(compact(a) + compact(b) =~= compact(a));
    } else {
        lemma_compact_concat(a, b.drop_last());
        assert((a + b).drop_last() =~= a + b.drop_last());
        assert((a + b).last() == b.last());
        if b.last() != ' ' {
            assert(compact(a + b) =~= compact(a) + compact(b));
        }
    }
}

/// A text without spaces is left as it is when its spaces are taken out.
pub proof fn lemma_compact_same(s: Seq<char>)
    requires
        free_of(s, ' '),
    ensures
        compact(s) == s,
    decreases s.len(),
{
    if s.len() > 0 {
        assert(free_of(s.drop_last(), ' ')) by {
            assert forall|i: int| 0 <= i < s.drop_last().len() implies #[trigger] s.drop_last()[i]
                != ' ' by {
                assert(s.drop_last()[i] == s[i]);
            }
        }
        lemma_compact_same(s.drop_last());
        assert(s.last() == s[s.len() - 1]);
        assert(compact(s) =~= s);
    }
}

/// A character of the text of a byte is a decimal digit.
pub open spec fn is_digit(c: char) -> bool {
    digit_value(c) is Some
}

/// The text of a byte is one to three digits, and reads back as the byte.
pub proof fn lemma_byte_text(b: u8)
    ensures
        1 <= byte_text(b).len() <= 3,
        forall|i: int| 0 <= i < byte_text(b).len() ==> is_digit(#[trigger] byte_text(b)[i]),
        byte_of(byte_text(b)) == Some(b),
{
    let text = byte_text(b);
    let n = b as int;
    assert forall|d: int| 0 <= d <= 9 implies #[trigger] digit_value(digit_char(d)) == Some(d) by {}
    if n < 10 {
        assert(text.drop_last() =~= Seq::<char>::empty());
    } else if n < 100 {
        assert(text.drop_last() =~= seq![digit_char(n / 10)]);
        assert(text.drop_last().drop_last() =~= Seq::<char>::empty());
        assert(decimal(text.drop_last()) == Some(n / 10));
    } else {
        let two = text.drop_last();
        assert(two =~= seq![digit_char(n / 100), digit_char((n / 10) % 10)]);
        assert(two.drop_last() =~= seq![digit_char(n / 100)]);
        assert(two.drop_last().drop_last() =~= Seq::<char>::empty());
        assert(decimal(two.drop_last()) == Some(n / 100));
        assert(decimal(two) == Some(10 * (n / 100) + (n / 10) % 10));
    }
}

/// The bytes in decimal with a comma after each but the last.
pub open spec fn tight_text(bytes: Seq<u8>) -> Seq<char>
    decreases bytes.len(),
{
    if bytes.len() == 0 {
        Seq::empty()
    } else if bytes.len() == 1 {
        byte_text(bytes[0])
    } else {
        tight_text(bytes.drop_last()) + seq![','] + byte_text(bytes.last())
    }
}

/// A character of a list of bytes: a digit, a comma or a space.
pub open spec fn list_char(c: char) -> bool {
    is_digit(c) || c == ',' || c == ' '
}

/// The text of a list of bytes is made of digits, commas and spaces; where
/// the list is not empty it begins and ends on a digit; and without its
/// spaces it is the list with bare commas.
pub proof fn lemma_list_text(bytes: Seq<u8>)
    ensures
        forall|i: int| 0 <= i < list_text(bytes).len() ==> list_char(#[trigger] list_text(bytes)[i]),
        bytes.len() > 0 ==> list_text(bytes).len() > 0 && is_digit(list_text(bytes).last())
            && is_digit(list_text(bytes)[0]),
        bytes.len() == 0 ==> list_text(bytes).len() == 0,
        compact(list_text(bytes)) == tight_text(bytes),
    decreases bytes.len(),
{
    if bytes.len() == 0 {
    } else if bytes.len() == 1 {
        lemma_byte_text(bytes[0]);
        assert(free_of(byte_text(bytes[0]), ' '));
        lemma_compact_same(byte_text(bytes[0]));
    } else {
        let front = bytes.drop_last();
        lemma_list_text(front);
        lemma_byte_text(bytes.last());
        let head = list_text(front);
        let tail = byte_text(bytes.last());
        let text = list_text(bytes);
        assert(text =~= head + seq![',', ' '] + tail);
        assert forall|i: int| 0 <= i < text.len() implies list_char(#[trigger] text[i]) by {
            if i < head.len() {
                assert(text[i] == head[i]);
            } else if i >= head.len() + 2 {
                assert(text[i] == tail[i - head.len() - 2]);
            }
        }
        assert(text.last() == tail.last());
        assert(text[0] == head[0]);
        assert(free_of(tail, ' '));
        lemma_compact_same(tail);
        lemma_compact_concat(head + seq![',', ' '], tail);
        lemma_compact_concat(head, seq![',', ' ']);
        assert(compact(seq![',', ' ']) =~= seq![',']) by {
            let pair = seq![',', ' '];
            assert(pair.drop_last() =~= seq![',']);
            assert(seq![','].drop_last() =~= Seq::<char>::empty());
            assert(compact(Seq::<char>::empty()) =~= Seq::<char>::empty());
            assert(seq![','].last() == ',');
            assert(compact(seq![',']) =~= seq![',']);
            assert(pair.last() == ' ');
        }
    }
}

/// The list of bytes with bare commas is made of digits and commas; where
/// the list is not empty it begins and ends on a digit.
pub proof fn lemma_tight_text(bytes: Seq<u8>)
    ensures
        forall|i: int|
            0 <= i < tight_text(bytes).len() ==> is_digit(#[trigger] tight_text(bytes)[i])
                || tight_text(bytes)[i] == ',',
        bytes.len() > 0 ==> tight_text(bytes).len() > 0 && is_digit(tight_text(bytes).last())
            && is_digit(tight_text(bytes)[0]),
        bytes.len() == 0 ==> tight_text(bytes).len() == 0,
    decreases bytes.len(),
{
    if bytes.len() == 0 {
    } else if bytes.len() == 1 {
        lemma_byte_text(bytes[0]);
    } else {
        let front = bytes.drop_last();
        lemma_tight_text(front);
        lemma_byte_text(bytes.last());
        let head = tight_text(front);
        let tail = byte_text(bytes.last());
        let text = tight_text(bytes);
        assert(text =~= head + seq![','] + tail);
        assert forall|i: int| 0 <= i < text.len() implies is_digit(#[trigger] text[i]) || text[i]
            == ',' by {
            if i < head.len() {
                assert(text[i] == head[i]);
            } else if i >= head.len() + 1 {
                assert(text[i] == tail[i - head.len() - 1]);
            }
        }
        assert(text.last() == tail.last());
        assert(text[0] == head[0]);
    }
}

/// The pieces of a text followed by a text without commas end with the last
/// piece of the first, grown by the second.
pub proof fn lemma_split_grows(s: Seq<char>, more: Seq<char>)
    requires
        free_of(more, ','),
    ensures
        split_on(s + more, ',') == split_on(s, ',').drop_last().push(
            split_on(s, ',').last() + more,
        ),
        split_on(s, ',').len() > 0,
    decreases more.len(),
{
    lemma_split_some(s);
    if more.len() == 0 {
        assert(s + more =~= s);
        assert(split_on(s, ',').last() + more =~= split_on(s, ',').last());
        assert(split_on(s, ',').drop_last().push(split_on(s, ',').last()) =~= split_on(s, ','));
    } else {
        let front = more.drop_last();
        assert(free_of(front, ',')) by {
            assert forall|i: int| 0 <= i < front.len() implies #[trigger] front[i] != ',' by {
                assert(front[i] == more[i]);
            }
        }
        lemma_split_grows(s, front);
        assert((s + more).drop_last() =~= s + front);
        assert((s + more).last() == more.last());
        assert(more.last() == more[more.len() - 1]);
        let before = split_on(s + front, ',');
        assert(before.drop_last() =~= split_on(s, ',').drop_last());
        assert(before.last().push(more.last()) =~= split_on(s, ',').last() + more);
    }
}

/// A text has at least one piece.
pub proof fn lemma_split_some(s: Seq<char>)
    ensures
        split_on(s, ',').len() > 0,
    decreases s.len(),
{
    if s.len() > 0 {
        lemma_split_some(s.drop_last());
    }
}

/// The texts of the bytes of a list.
pub open spec fn byte_texts(bytes: Seq<u8>) -> Seq<Seq<char>> {
    Seq::new(bytes.len(), |i: int| byte_text(bytes[i]))
}

/// The pieces of a list of bytes with bare commas are the texts of its
/// bytes.
pub proof fn lemma_split_tight(bytes: Seq<u8>)
    requires
        bytes.len() > 0,
    ensures
        split_commas(tight_text(bytes)) == byte_texts(bytes),
    decreases bytes.len(),
{
    if bytes.len() == 1 {
        lemma_byte_text(bytes[0]);
        let text = byte_text(bytes[0]);
        assert(free_of(text, ','));
        lemma_split_grows(Seq::empty(), text);
        assert(Seq::<char>::empty() + text =~= text);
        assert(split_on(Seq::empty(), ',') =~= seq![Seq::<char>::empty()]);
        assert(Seq::<char>::empty() + text =~= text);
        assert(split_commas(text) =~= byte_texts(bytes));
    } else {
        let front = bytes.drop_last();
        lemma_split_tight(front);
        lemma_byte_text(bytes.last());
        let tail = byte_text(bytes.last());
        assert(free_of(tail, ','));
        let head = tight_text(front) + seq![','];
        assert(head.drop_last() =~= tight_text(front));
        assert(split_on(head, ',') =~= byte_texts(front).push(Seq::empty()));
        lemma_split_grows(head, tail);
        assert(Seq::<char>::empty() + tail =~= tail);
        assert(tight_text(bytes) =~= head + tail);
        assert(split_commas(tight_text(bytes)) =~= byte_texts(bytes));
    }
}

/// The texts of bytes read back as the bytes.
pub proof fn lemma_all_bytes(bytes: Seq<u8>)
    ensures
        all_bytes(byte_texts(bytes)) == Some(bytes),
    decreases bytes.len(),
{
    if bytes.len() == 0 {
        assert(bytes =~= Seq::empty());
    } else {
        lemma_all_bytes(bytes.drop_last());
        lemma_byte_text(bytes.last());
        assert(byte_texts(bytes).drop_last() =~= byte_texts(bytes.drop_last()));
        assert(bytes.drop_last().push(bytes.last()) =~= bytes);
    }
}

/// A list of bytes with bare commas reads back as the bytes.
pub proof fn lemma_bytes_of_tight(bytes: Seq<u8>)
    ensures
        bytes_of(tight_text(bytes)) == Some(bytes),
{
    lemma_tight_text(bytes);
    if bytes.len() == 0 {
        assert(bytes =~= Seq::empty());
    } else {
        lemma_split_tight(bytes);
        lemma_all_bytes(bytes);
    }
}

/// Where `i` is the place of the first `c`, the first `c` is found there.
pub proof fn lemma_first_index(s: Seq<char>, c: char, i: int)
    requires
        first_char_at(s, c, i),
    ensures
        first_index(s, c) == Some(i),
{
    let chosen = choose|k: int| first_char_at(s, c, k);
    if chosen < i {
        assert(s[chosen] != c);
    } else if i < chosen {
        assert(s[i] != c);
    }
}

/// A text without `c` has no first `c`.
pub proof fn lemma_no_index(s: Seq<char>, c: char)
    requires
        free_of(s, c),
    ensures
        first_index(s, c) is None,
{
    if exists|k: int| first_char_at(s, c, k) {
        let k = choose|k: int| first_char_at(s, c, k);
        assert(s[k] != c);
    }
}

/// A name that can stand in a line with a value: it is not empty and holds
/// neither a blank nor an opening bracket.
pub open spec fn plain(name: Seq<char>) -> bool {
    one_field(name) && free_of(name, '[')
}

/// What comes before the value in a line with a value.
pub open spec fn lead(verb: Seq<char>, cluster: Name, key: Name) -> Seq<char> {
    verb + seq![' '] + cluster + seq![' '] + key + seq![' ']
}

/// The field that a value is once its list is set apart.
pub open spec fn tight_value(value: Seq<u8>) -> Seq<char> {
    seq!['['] + tight_text(value) + seq![']']
}

/// What comes before the value in a line holds no opening bracket.
pub proof fn lemma_lead(verb: Seq<char>, cluster: Name, key: Name)
    requires
        plain(verb),
        plain(cluster),
        plain(key),
    ensures
        free_of(lead(verb, cluster, key), '['),
{
    let head = lead(verb, cluster, key);
    assert forall|j: int| 0 <= j < head.len() implies #[trigger] head[j] != '[' by {
        if j < verb.len() {
            assert(head[j] == verb[j]);
        } else if j == verb.len() {
        } else if j < verb.len() + 1 + cluster.len() {
            assert(head[j] == cluster[j - verb.len() - 1]);
        } else if j == verb.len() + 1 + cluster.len() {
        } else if j < verb.len() + 1 + cluster.len() + 1 + key.len() {
            assert(head[j] == key[j - verb.len() - 1 - cluster.len() - 1]);
        } else {
        }
    }
}

/// The quotes strip nothing off a line that neither begins nor ends on one.
pub proof fn lemma_no_quotes(line: Seq<char>)
    requires
        line.len() > 0,
        line[0] != '"',
        line.last() != '"',
    ensures
        strip_both(line, '"', '"') == line,
{
    lemma_strip_front(line, '"', '"', 0);
    assert(line.skip(0) =~= line);
    lemma_strip_back(line, '"', '"', line.len() as int);
    assert(line.take(line.len() as int) =~= line);
}

/// A text made of a part without opening brackets, an opening bracket, a
/// list and a closing bracket, with its list set apart: the list stands
/// between the brackets without its spaces.
pub proof fn lemma_rebuilt(head: Seq<char>, value: Seq<u8>)
    requires
        free_of(head, '['),
    ensures
        rebuilt(head + value_text(value)) == head + tight_value(value),
{
    let list = list_text(value);
    let tight = tight_text(value);
    let line = head + value_text(value);
    lemma_list_text(value);
    assert(line =~= head + seq!['['] + list + seq![']']);
    assert(line.last() == ']');
    let open = head + seq!['['] + list;
    assert(open =~= line.take(line.len() - 1));
    assert(open.last() != ']') by {
        if value.len() == 0 {
            assert(open.last() == '[');
        } else {
            assert(open.last() == list.last());
        }
    }
    assert(line[line.len() - 2] == open.last());
    lemma_strip_back(line, ']', ']', line.len() - 1);
    assert(strip_back(line, ']', ']') == open);
    assert forall|j: int| 0 <= j < head.len() implies #[trigger] open[j] != '[' by {
        assert(open[j] == head[j]);
    }
    assert(open[head.len() as int] == '[');
    lemma_first_index(open, '[', head.len() as int);
    assert(open.skip(head.len() as int + 1) =~= list);
    assert(open.take(head.len() as int) =~= head);
    assert(free_of(list, ']')) by {
        assert forall|i: int| 0 <= i < list.len() implies #[trigger] list[i] != ']' by {
            assert(list_char(list[i]));
        }
    }
    lemma_no_index(list, ']');
    assert(rebuilt(line) =~= head + seq!['['] + tight + seq![']']);
    assert(head + seq!['['] + tight + seq![']'] =~= head + tight_value(value));
}

/// The field of a value is one field, and what stands between its brackets
/// reads back as the bytes.
pub proof fn lemma_tight_value(value: Seq<u8>)
    ensures
        one_field(tight_value(value)),
        bytes_of(strip_both(tight_value(value), '[', ']')) == Some(value),
{
    let tight = tight_text(value);
    let field = tight_value(value);
    lemma_tight_text(value);
    lemma_bytes_of_tight(value);
    assert forall|i: int| 0 <= i < field.len() implies !is_blank(#[trigger] field[i]) by {
        if 0 < i < field.len() - 1 {
            assert(field[i] == tight[i - 1]);
        }
    }
    if value.len() == 0 {
        assert(field =~= seq!['[', ']']);
        lemma_strip_front(field, '[', ']', 2);
        assert(field.skip(2) =~= Seq::<char>::empty());
        assert(strip_both(field, '[', ']') =~= tight);
    } else {
        assert(field[1] == tight[0]);
        lemma_strip_front(field, '[', ']', 1);
        let closed = tight + seq![']'];
        assert(field.skip(1) =~= closed);
        assert(closed[tight.len() - 1] == tight.last());
        lemma_strip_back(closed, '[', ']', tight.len() as int);
        assert(closed.take(tight.len() as int) =~= tight);
    }
}

/// The fields of a verb, a cluster, a key and one more field.
pub proof fn lemma_four_fields(verb: Seq<char>, cluster: Name, key: Name, field: Seq<char>)
    requires
        one_field(verb),
        one_field(cluster),
        one_field(key),
        one_field(field),
    ensures
        fields(lead(verb, cluster, key) + field) == seq![verb, cluster, key, field],
{
    let line = lead(verb, cluster, key) + field;
    assert(line =~= verb + seq![' '] + (cluster + seq![' '] + (key + seq![' '] + field)));
    lemma_fields_after(verb, cluster + seq![' '] + (key + seq![' '] + field));
    lemma_fields_after(cluster, key + seq![' '] + field);
    lemma_fields_after(key, field);
    lemma_fields_one(field);
    assert(fields(line) =~= seq![verb, cluster, key, field]);
}

/// A line with a value, read step by step: the quotes strip nothing, the
/// first field is the verb, the line with its list set apart has the verb,
/// the cluster, the key and the list as its four fields, and the list reads
/// back as the bytes.
pub proof fn lemma_valued_line(verb: Seq<char>, cluster: Name, key: Name, value: Seq<u8>)
    requires
        plain(verb),
        verb[0] != '"',
        plain(cluster),
        plain(key),
    ensures
        strip_both(valued_line(verb, cluster, key, value), '"', '"') == valued_line(
            verb,
            cluster,
            key,
            value,
        ),
        fields(valued_line(verb, cluster, key, value)).len() > 0,
        fields(valued_line(verb, cluster, key, value))[0] == verb,
        fields(rebuilt(valued_line(verb, cluster, key, value))) == seq![
            verb,
            cluster,
            key,
            tight_value(value),
        ],
        bytes_of(strip_both(tight_value(value), '[', ']')) == Some(value),
{
    let line = valued_line(verb, cluster, key, value);
    let head = lead(verb, cluster, key);
    assert(line =~= head + value_text(value));
    assert(line[0] == verb[0]);
    assert(line.last() == ']');
    lemma_no_quotes(line);
    let after_verb = cluster + seq![' '] + key + seq![' '] + value_text(value);
    assert(line =~= verb + seq![' '] + after_verb);
    lemma_fields_after(verb, after_verb);
    lemma_lead(verb, cluster, key);
    lemma_rebuilt(head, value);
    lemma_tight_value(value);
    lemma_four_fields(verb, cluster, key, tight_value(value));
}

/// Whether a command is read back from the line that the log holds for it:
/// its names must be able to stand as fields of the line.
///
/// A cluster or a key of a line with a value must not be empty, and must
/// hold neither a blank nor an opening bracket; a counter must hold a
/// 32-bit number. The names of a removal must not be empty and must hold no
/// blank, and the last of them must not end on a double quote.
pub open spec fn fits(command: CommandModel) -> bool {
    match command {
        CommandModel::SetValue { cluster, key, value } => plain(cluster) && plain(key),
        CommandModel::Incr { cluster, key, result } => plain(cluster) && plain(key) && i32::MIN
            <= result <= i32::MAX,
        CommandModel::Decr { cluster, key, result } => plain(cluster) && plain(key) && i32::MIN
            <= result <= i32::MAX,
        CommandModel::Del { cluster, key } => one_field(cluster) && one_field(key) && key.last()
            != '"',
        CommandModel::ClearCluster { cluster } => one_field(cluster) && cluster.last() != '"',
        CommandModel::ClearAll => true,
    }
}

/// The verbs are words without blanks, brackets and quotes, and no two are
/// the same.
pub proof fn lemma_verbs()
    ensures
        plain(verb_set()) && plain(verb_incr()) && plain(verb_decr()) && plain(verb_del())
            && plain(verb_clear_cluster()) && plain(verb_clear_all()),
        verb_set()[0] != '"' && verb_incr()[0] != '"' && verb_decr()[0] != '"' && verb_del()[0]
            != '"' && verb_clear_cluster()[0] != '"' && verb_clear_all()[0] != '"',
        verb_set() != verb_incr() && verb_set() != verb_decr() && verb_incr() != verb_decr(),
        verb_del() != verb_set() && verb_del() != verb_incr() && verb_del() != verb_decr(),
        verb_clear_cluster() != verb_set() && verb_clear_cluster() != verb_incr()
            && verb_clear_cluster() != verb_decr() && verb_clear_cluster() != verb_del(),
        verb_clear_all() != verb_set() && verb_clear_all() != verb_incr() && verb_clear_all()
            != verb_decr() && verb_clear_all() != verb_del() && verb_clear_all()
            != verb_clear_cluster(),
{
    assert(verb_set().len() == 3 && verb_incr().len() == 4 && verb_decr().len() == 4
        && verb_del().len() == 3 && verb_clear_cluster().len() == 13 && verb_clear_all().len()
        == 9);
    assert(verb_incr()[0] != verb_decr()[0]);
    assert(verb_del()[0] != verb_set()[0]);
}

/// A command is read back from the line that the log holds for it.
///
/// The command must fit: a name that is empty, or that holds a blank, cuts
/// the line into other fields than were written.
pub proof fn law_line_reads_back(command: CommandModel)
    requires
        fits(command),
    ensures
        parsed(line_of(command)) == Some(command),
{
    lemma_verbs();
    let line = line_of(command);
    match command {
        CommandModel::SetValue { cluster, key, value } => {
            lemma_valued_line(verb_set(), cluster, key, value);
        },
        CommandModel::Incr { cluster, key, result } => {
            lemma_valued_line(verb_incr(), cluster, key, crate::convert::le_bytes(result));
            crate::convert::lemma_le_signed_of_le_bytes(result);
        },
        CommandModel::Decr { cluster, key, result } => {
            lemma_valued_line(verb_decr(), cluster, key, crate::convert::le_bytes(result));
            crate::convert::lemma_le_signed_of_le_bytes(result);
        },
        CommandModel::Del { cluster, key } => {
            assert(line[0] == verb_del()[0]);
            assert(line.last() == key.last());
            lemma_no_quotes(line);
            assert(line =~= verb_del() + seq![' '] + (cluster + seq![' '] + key));
            lemma_fields_after(verb_del(), cluster + seq![' '] + key);
            lemma_fields_after(cluster, key);
            lemma_fields_one(key);
            assert(fields(line) =~= seq![verb_del(), cluster, key]);
        },
        CommandModel::ClearCluster { cluster } => {
            assert(line[0] == verb_clear_cluster()[0]);
            assert(line.last() == cluster.last());
            lemma_no_quotes(line);
            lemma_fields_after(verb_clear_cluster(), cluster);
            lemma_fields_one(cluster);
            assert(fields(line) =~= seq![verb_clear_cluster(), cluster]);
        },
        CommandModel::ClearAll => {
            assert(line[0] == verb_clear_all()[0]);
            assert(line.last() == verb_clear_all()[8]);
            lemma_no_quotes(line);
            lemma_fields_one(line);
        },
    }
}

/// A write with a time to live adds nothing to the log.
pub proof fn law_ttl_write_not_logged(
    m: CacheModel,
    cluster: Name,
    key: Name,
    value: Seq<u8>,
    ttl: int,
    suppress: bool,
    now: int,
    pick: int,
)
    ensures
        m.set(cluster, key, value, Some(ttl), suppress, now, pick).journal == m.journal,
{
}

/// Where the engine does not persist, or the caller suppresses the log, no
/// operation adds to the log.
pub proof fn law_suppressed_not_logged(
    m: CacheModel,
    cluster: Name,
    key: Name,
    value: Seq<u8>,
    step: Option<i32>,
    ttl: Option<int>,
    suppress: bool,
    now: int,
    pick: int,
)
    requires
        !m.persistent || suppress,
    ensures
        m.set(cluster, key, value, ttl, suppress, now, pick).journal == m.journal,
        m.incr(cluster, key, step, suppress, now, pick).journal == m.journal,
        m.decr(cluster, key, step, suppress, now, pick).journal == m.journal,
        m.delete(cluster, key, suppress).journal == m.journal,
        m.clear_cluster(cluster, suppress).journal == m.journal,
        m.clear_all(suppress).journal == m.journal,
{
}

/// Carrying out a line that was read from the log adds nothing to the log.
pub proof fn lemma_execute_leaves_log(m: CacheModel, line: Seq<char>, now: int, pick: int)
    ensures
        m.execute(line, now, pick).journal == m.journal,
        m.execute(line, now, pick).persistent == m.persistent,
        m.execute(line, now, pick).limit == m.limit,
{
}

/// A replay adds nothing to the log.
pub proof fn law_replay_leaves_log(m: CacheModel, lines: Seq<Seq<char>>, now: int, pick: int)
    ensures
        m.replay(lines, now, pick).journal == m.journal,
        m.replay(lines, now, pick).persistent == m.persistent,
        m.replay(lines, now, pick).limit == m.limit,
    decreases lines.len(),
{
    if lines.len() > 0 {
        law_replay_leaves_log(m, lines.drop_last(), now, pick);
        lemma_execute_leaves_log(m.replay(lines.drop_last(), now, pick), lines.last(), now, pick);
    }
}

/// An operation that the log records.
pub enum Logged {
    /// A write without a time to live.
    Write { cluster: Name, key: Name, value: Seq<u8> },
    /// The raising of a counter.
    Raise { cluster: Name, key: Name, step: Option<i32> },
    /// The lowering of a counter.
    Lower { cluster: Name, key: Name, step: Option<i32> },
    /// The removal of a key.
    Remove { cluster: Name, key: Name },
    /// The removal of a cluster.
    DropCluster { cluster: Name },
    /// The removal of everything.
    DropAll,
}

/// The engine after a recorded operation was done at `now`, unsuppressed.
pub open spec fn perform(m: CacheModel, op: Logged, now: int, pick: int) -> CacheModel {
    match op {
        Logged::Write { cluster, key, value } => m.set(cluster, key, value, None, false, now, pick),
        Logged::Raise { cluster, key, step } => m.incr(cluster, key, step, false, now, pick),
        Logged::Lower { cluster, key, step } => m.decr(cluster, key, step, false, now, pick),
        Logged::Remove { cluster, key } => m.delete(cluster, key, false),
        Logged::DropCluster { cluster } => m.clear_cluster(cluster, false),
        Logged::DropAll => m.clear_all(false),
    }
}

/// Whether a recorded operation is one that a replay does again as it was
/// done: its names must be able to stand as fields of a line, and the
/// lowering of a counter must find nothing to sweep out of its cluster,
/// for a sweep is not recorded.
pub open spec fn replayable(m: CacheModel, op: Logged, now: int) -> bool {
    match op {
        Logged::Write { cluster, key, value } => plain(cluster) && plain(key),
        Logged::Raise { cluster, key, step } => plain(cluster) && plain(key),
        Logged::Lower { cluster, key, step } => plain(cluster) && plain(key) && m.purge(
            cluster,
            now,
        ) == m,
        Logged::Remove { cluster, key } => one_field(cluster) && one_field(key) && key.last()
            != '"',
        Logged::DropCluster { cluster } => one_field(cluster) && cluster.last() != '"',
        Logged::DropAll => true,
    }
}

/// Two engines hold the same entries and account for them alike.
pub open spec fn mirrors(replica: CacheModel, m: CacheModel) -> bool {
    replica.store == m.store && replica.usage == m.usage && replica.limit == m.limit
}

/// What an operation added to the log.
pub open spec fn echo(m: CacheModel, after: CacheModel) -> Seq<Seq<char>> {
    after.journal.skip(m.journal.len() as int)
}

/// A replay of no lines changes nothing, and a replay of one line carries
/// out that line.
pub proof fn lemma_replay_short(m: CacheModel, line: Seq<char>, now: int, pick: int)
    ensures
        m.replay(Seq::empty(), now, pick) == m,
        m.replay(seq![line], now, pick) == m.execute(line, now, pick),
{
    assert(seq![line].drop_last() =~= Seq::<Seq<char>>::empty());
    assert(seq![line].last() == line);
}

/// What one recorded operation added to the log, replayed on an engine that
/// held the same entries as the first before the operation, leaves it
/// holding the same entries as the first after the operation.
///
/// The first engine must persist, and must not be over its limit when the
/// operation is done: an eviction is not recorded. The operation must be
/// one that a replay does again as it was done.
pub proof fn law_replay_step(
    m: CacheModel,
    replica: CacheModel,
    op: Logged,
    now: int,
    pick: int,
    later: int,
    other_pick: int,
)
    requires
        m.persistent,
        !m.over_limit(),
        mirrors(replica, m),
        replayable(m, op, now),
    ensures
        perform(m, op, now, pick).journal == m.journal + echo(m, perform(m, op, now, pick)),
        echo(m, perform(m, op, now, pick)).len() <= 1,
        mirrors(
            replica.replay(echo(m, perform(m, op, now, pick)), later, other_pick),
            perform(m, op, now, pick),
        ),
{
    let after = perform(m, op, now, pick);
    let added = echo(m, after);
    assert(m.make_room(now, pick) == m);
    assert(replica.make_room(later, other_pick) == replica);
    match op {
        Logged::Write { cluster, key, value } => {
            let command = CommandModel::SetValue { cluster, key, value };
            law_line_reads_back(command);
            assert(added =~= seq![line_of(command)]);
            lemma_replay_short(replica, line_of(command), later, other_pick);
        },
        Logged::Raise { cluster, key, step } => {
            match m.raised(cluster, key, step_of(step)) {
                Some(number) => {
                    let command = CommandModel::Incr { cluster, key, result: number };
                    law_line_reads_back(command);
                    assert(added =~= seq![line_of(command)]);
                    lemma_replay_short(replica, line_of(command), later, other_pick);
                },
                None => {
                    assert(added =~= Seq::<Seq<char>>::empty());
                    lemma_replay_short(replica, Seq::empty(), later, other_pick);
                },
            }
        },
        Logged::Lower { cluster, key, step } => {
            match m.lowered(cluster, key, step_of(step)) {
                Some(number) => {
                    let command = CommandModel::Decr { cluster, key, result: number };
                    law_line_reads_back(command);
                    assert(added =~= seq![line_of(command)]);
                    lemma_replay_short(replica, line_of(command), later, other_pick);
                },
                None => {
                    assert(added =~= Seq::<Seq<char>>::empty());
                    lemma_replay_short(replica, Seq::empty(), later, other_pick);
                },
            }
        },
        Logged::Remove { cluster, key } => {
            if m.read(cluster, key) is Some {
                let command = CommandModel::Del { cluster, key };
                law_line_reads_back(command);
                assert(added =~= seq![line_of(command)]);
                lemma_replay_short(replica, line_of(command), later, other_pick);
            } else {
                assert(added =~= Seq::<Seq<char>>::empty());
                lemma_replay_short(replica, Seq::empty(), later, other_pick);
            }
        },
        Logged::DropCluster { cluster } => {
            if crate::assoc::binds(m.store, cluster) {
                let command = CommandModel::ClearCluster { cluster };
                law_line_reads_back(command);
                assert(added =~= seq![line_of(command)]);
                lemma_replay_short(replica, line_of(command), later, other_pick);
            } else {
                assert(added =~= Seq::<Seq<char>>::empty());
                lemma_replay_short(replica, Seq::empty(), later, other_pick);
            }
        },
        Logged::DropAll => {
            let command = CommandModel::ClearAll;
            law_line_reads_back(command);
            assert(added =~= seq![line_of(command)]);
            lemma_replay_short(replica, line_of(command), later, other_pick);
        },
    }
    assert(after.journal =~= m.journal + added);
}

/// A replay of lines followed by more lines is a replay of the first
/// followed by a replay of the rest.
pub proof fn lemma_replay_concat(
    m: CacheModel,
    first: Seq<Seq<char>>,
    rest: Seq<Seq<char>>,
    now: int,
    pick: int,
)
    ensures
        m.replay(first + rest, now, pick) == m.replay(first, now, pick).replay(rest, now, pick),
    decreases rest.len(),
{
    if rest.len() == 0 {
        assert(first + rest =~= first);
    } else {
        lemma_replay_concat(m, first, rest.drop_last(), now, pick);
        assert((first + rest).drop_last() =~= first + rest.drop_last());
        assert((first + rest).last() == rest.last());
    }
}

/// The engine after a run of recorded operations, each done at its own
/// moment.
pub open spec fn perform_all(m: CacheModel, steps: Seq<(Logged, int, int)>) -> CacheModel
    decreases steps.len(),
{
    if steps.len() == 0 {
        m
    } else {
        perform(
            perform_all(m, steps.drop_last()),
            steps.last().0,
            steps.last().1,
            steps.last().2,
        )
    }
}

/// Every operation of the run finds the engine within its limit, and is one
/// that a replay does again as it was done.
pub open spec fn replayable_run(m: CacheModel, steps: Seq<(Logged, int, int)>) -> bool
    decreases steps.len(),
{
    if steps.len() == 0 {
        true
    } else {
        &&& replayable_run(m, steps.drop_last())
        &&& !perform_all(m, steps.drop_last()).over_limit()
        &&& replayable(perform_all(m, steps.drop_last()), steps.last().0, steps.last().1)
    }
}

/// An engine that persists goes on persisting, whatever is done.
pub proof fn lemma_perform_persists(m: CacheModel, op: Logged, now: int, pick: int)
    ensures
        perform(m, op, now, pick).persistent == m.persistent,
{
}

/// What a run of recorded operations added to the log, replayed on an
/// engine that held the same entries as the first before the run, leaves it
/// holding the same entries as the first after the run: the same clusters,
/// the same keys, the same bytes, in the same order.
///
/// The first engine must persist. No operation of the run may find it over
/// its limit, for an eviction is not recorded; and every operation must be
/// one that a replay does again as it was done.
pub proof fn law_replay_reproduces(
    m: CacheModel,
    replica: CacheModel,
    steps: Seq<(Logged, int, int)>,
    later: int,
    other_pick: int,
)
    requires
        m.persistent,
        mirrors(replica, m),
        replayable_run(m, steps),
    ensures
        perform_all(m, steps).persistent,
        perform_all(m, steps).journal == m.journal + echo(m, perform_all(m, steps)),
        mirrors(
            replica.replay(echo(m, perform_all(m, steps)), later, other_pick),
            perform_all(m, steps),
        ),
    decreases steps.len(),
{
    if steps.len() == 0 {
        assert(echo(m, m) =~= Seq::<Seq<char>>::empty());
        assert(m.journal + echo(m, m) =~= m.journal);
    } else {
        let before = perform_all(m, steps.drop_last());
        let (op, now, pick) = steps.last();
        let after = perform_all(m, steps);
        law_replay_reproduces(m, replica, steps.drop_last(), later, other_pick);
        let caught_up = replica.replay(echo(m, before), later, other_pick);
        law_replay_step(before, caught_up, op, now, pick, later, other_pick);
        lemma_perform_persists(before, op, now, pick);
        assert(echo(m, after) =~= echo(m, before) + echo(before, after));
        lemma_replay_concat(replica, echo(m, before), echo(before, after), later, other_pick);
        assert(after.journal =~= m.journal + echo(m, after));
    }
}

} // verus!
