//! Text as a sequence of characters: the pieces that the reader of the log
//! is made of.

use vstd::prelude::*;

verus! {

/// A character that separates the fields of a line: a space, a tab, or one of
/// the ASCII line and page breaks.
pub open spec fn is_blank(c: char) -> bool {
    c == ' ' || c == '\t' || c == '\n' || c == '\r' || c == '\x0b' || c == '\x0c'
}

/// `s` without the characters `a` and `b` at its end.
pub open spec fn strip_back(s: Seq<char>, a: char, b: char) -> Seq<char>
    decreases s.len(),
{
    if s.len() > 0 && (s.last() == a || s.last() == b) {
        strip_back(s.drop_last(), a, b)
    } else {
        s
    }
}

/// `s` without the characters `a` and `b` at its start.
pub open spec fn strip_front(s: Seq<char>, a: char, b: char) -> Seq<char>
    decreases s.len(),
{
    if s.len() > 0 && (s[0] == a || s[0] == b) {
        strip_front(s.drop_first(), a, b)
    } else {
        s
    }
}

/// `s` without the characters `a` and `b` at its start and at its end.
pub open spec fn strip_both(s: Seq<char>, a: char, b: char) -> Seq<char> {
    strip_back(strip_front(s, a, b), a, b)
}

/// `i` is the place of the first `c` in `s`.
pub open spec fn first_char_at(s: Seq<char>, c: char, i: int) -> bool {
    &&& 0 <= i < s.len()
    &&& s[i] == c
    &&& forall|j: int| 0 <= j < i ==> #[trigger] s[j] != c
}

/// The place of the first `c` in `s`, where there is one.
pub open spec fn first_index(s: Seq<char>, c: char) -> Option<int> {
    if exists|i: int| first_char_at(s, c, i) {
        Some(choose|i: int| first_char_at(s, c, i))
    } else {
        None
    }
}

/// `s` without its spaces.
pub open spec fn compact(s: Seq<char>) -> Seq<char>
    decreases s.len(),
{
    if s.len() == 0 {
        s
    } else if s.last() == ' ' {
        compact(s.drop_last())
    } else {
        compact(s.drop_last()).push(s.last())
    }
}

/// The fields of `s`: its longest runs of characters that are not blank, in
/// their order.
pub open spec fn fields(s: Seq<char>) -> Seq<Seq<char>>
    decreases s.len(),
{
    if s.len() == 0 {
        Seq::empty()
    } else if is_blank(s.last()) {
        fields(s.drop_last())
    } else if s.len() > 1 && !is_blank(s[s.len() - 2]) {
        fields(s.drop_last()).drop_last().push(fields(s.drop_last()).last().push(s.last()))
    } else {
        fields(s.drop_last()).push(seq![s.last()])
    }
}

/// The pieces of `s` between the places where `mark` stands: one more than
/// there are such places.
pub open spec fn split_on(s: Seq<char>, mark: char) -> Seq<Seq<char>>
    decreases s.len(),
{
    if s.len() == 0 {
        seq![Seq::empty()]
    } else if s.last() == mark {
        split_on(s.drop_last(), mark).push(Seq::empty())
    } else {
        split_on(s.drop_last(), mark).drop_last().push(
            split_on(s.drop_last(), mark).last().push(s.last()),
        )
    }
}

/// The pieces of `s` between its commas: one more than it has commas.
pub open spec fn split_commas(s: Seq<char>) -> Seq<Seq<char>> {
    split_on(s, ',')
}

/// The texts of a list of character vectors.
pub open spec fn pieces_view(pieces: Seq<Vec<char>>) -> Seq<Seq<char>> {
    Seq::new(pieces.len(), |i: int| pieces[i]@)
}

/// The characters of a text.
pub fn chars_of(text: &str) -> (chars: Vec<char>)
    ensures
        chars@ == text@,
{
    let mut chars: Vec<char> = Vec::new();
    for c in it: text.chars()
        invariant
            it.seq() == text@,
            chars@ == it.seq().take(it.index() as int),
    {
        chars.push(c);
        assert(chars@ =~= it.seq().take(it.index() + 1));
    }
    assert(text@.take(text@.len() as int) =~= text@);
    chars
}

/// The text made of the characters.
pub fn text_of_chars(chars: &Vec<char>) -> (text: String)
    ensures
        text@ == chars@,
{
    let mut text = String::new();
    let mut i: usize = 0;
    while i < chars.len()
        invariant
            i <= chars.len(),
            text@ == chars@.take(i as int),
        decreases chars.len() - i,
    {
        text.push(chars[i]);
        assert(text@ =~= chars@.take(i + 1));
        i = i + 1;
    }
    assert(chars@.take(chars.len() as int) =~= chars@);
    text
}

/// The characters of `chars` from place `from` up to, and without, place
/// `to`.
pub fn slice_chars(chars: &Vec<char>, from: usize, to: usize) -> (part: Vec<char>)
    requires
        from <= to <= chars.len(),
    ensures
        part@ == chars@.subrange(from as int, to as int),
{
    let mut part: Vec<char> = Vec::new();
    let mut i: usize = from;
    while i < to
        invariant
            from <= i <= to,
            to <= chars.len(),
            part@ == chars@.subrange(from as int, i as int),
        decreases to - i,
    {
        part.push(chars[i]);
        assert(part@ =~= chars@.subrange(from as int, i + 1));
        i = i + 1;
    }
    part
}

/// Whether the characters are the same.
pub fn same_chars(a: &Vec<char>, b: &Vec<char>) -> (same: bool)
    ensures
        same == (a@ == b@),
{
    if a.len() != b.len() {
        return false;
    }
    let mut i: usize = 0;
    while i < a.len()
        invariant
            i <= a.len(),
            a.len() == b.len(),
            forall|j: int| 0 <= j < i ==> a@[j] == b@[j],
        decreases a.len() - i,
    {
        if a[i] != b[i] {
            return false;
        }
        i = i + 1;
    }
    assert(a@ =~= b@);
    true
}

/// Stripping at the end leaves the start that comes before the last
/// character that is neither `a` nor `b`.
pub proof fn lemma_strip_back(s: Seq<char>, a: char, b: char, n: int)
    requires
        0 <= n <= s.len(),
        forall|j: int| n <= j < s.len() ==> #[trigger] s[j] == a || s[j] == b,
        n > 0 ==> s[n - 1] != a && s[n - 1] != b,
    ensures
        strip_back(s, a, b) == s.take(n),
    decreases s.len() - n,
{
    if n < s.len() {
        assert(s.last() == s[s.len() - 1]);
        assert(s[s.len() - 1] == a || s[s.len() - 1] == b);
        lemma_strip_back(s.drop_last(), a, b, n);
        assert(s.drop_last().take(n) =~= s.take(n));
    } else {
        assert(s.take(n) =~= s);
        if s.len() > 0 {
            assert(s.last() == s[n - 1]);
        }
    }
}

/// Stripping at the start leaves the end that begins at the first character
/// that is neither `a` nor `b`.
pub proof fn lemma_strip_front(s: Seq<char>, a: char, b: char, n: int)
    requires
        0 <= n <= s.len(),
        forall|j: int| 0 <= j < n ==> #[trigger] s[j] == a || s[j] == b,
        n < s.len() ==> s[n] != a && s[n] != b,
    ensures
        strip_front(s, a, b) == s.skip(n),
    decreases n,
{
    if n > 0 {
        assert(s[0] == a || s[0] == b);
        let rest = s.drop_first();
        assert forall|j: int| 0 <= j < n - 1 implies #[trigger] rest[j] == a || rest[j] == b by {
            assert(rest[j] == s[j + 1]);
            assert(s[j + 1] == a || s[j + 1] == b);
        }
        if n < s.len() {
            assert(rest[n - 1] == s[n]);
        }
        lemma_strip_front(rest, a, b, n - 1);
        assert(rest.skip(n - 1) =~= s.skip(n));
    } else {
        assert(s.skip(0) =~= s);
    }
}

/// The characters without those that equal `a` or `b` at the start and at
/// the end.
pub fn strip(chars: &Vec<char>, a: char, b: char) -> (kept: Vec<char>)
    ensures
        kept@ == strip_both(chars@, a, b),
{
    let mut from: usize = 0;
    while from < chars.len() && (chars[from] == a || chars[from] == b)
        invariant
            from <= chars.len(),
            forall|j: int| 0 <= j < from ==> #[trigger] chars@[j] == a || chars@[j] == b,
        decreases chars.len() - from,
    {
        from = from + 1;
    }
    proof {
        lemma_strip_front(chars@, a, b, from as int);
    }
    let ghost rest = chars@.skip(from as int);
    let mut to: usize = chars.len();
    while to > from && (chars[to - 1] == a || chars[to - 1] == b)
        invariant
            from <= to <= chars.len(),
            rest == chars@.skip(from as int),
            forall|j: int| to - from <= j < rest.len() ==> #[trigger] rest[j] == a || rest[j] == b,
        decreases to,
    {
        to = to - 1;
    }
    proof {
        if to > from {
            assert(rest[to - from - 1] == chars@[to - 1]);
        }
        lemma_strip_back(rest, a, b, to - from);
        assert(rest.take(to - from) =~= chars@.subrange(from as int, to as int));
    }
    slice_chars(chars, from, to)
}

/// The place of the first `c` among the characters, where there is one.
pub fn find_char(chars: &Vec<char>, c: char) -> (place: Option<usize>)
    ensures
        match place {
            Some(i) => first_index(chars@, c) == Some(i as int) && first_char_at(
                chars@,
                c,
                i as int,
            ),
            None => first_index(chars@, c) is None,
        },
{
    let mut i: usize = 0;
    while i < chars.len()
        invariant
            i <= chars.len(),
            forall|j: int| 0 <= j < i ==> #[trigger] chars@[j] != c,
        decreases chars.len() - i,
    {
        if chars[i] == c {
            proof {
                assert(first_char_at(chars@, c, i as int));
                let chosen = choose|k: int| first_char_at(chars@, c, k);
                if chosen < i {
                    assert(chars@[chosen] != c);
                } else if i < chosen {
                    assert(chars@[i as int] != c);
                }
            }
            return Some(i);
        }
        i = i + 1;
    }
    proof {
        if exists|k: int| first_char_at(chars@, c, k) {
            let k = choose|k: int| first_char_at(chars@, c, k);
            assert(chars@[k] != c);
        }
    }
    None
}

/// The characters without the spaces among them.
pub fn squeeze(chars: &Vec<char>) -> (kept: Vec<char>)
    ensures
        kept@ == compact(chars@),
{
    let mut kept: Vec<char> = Vec::new();
    let mut i: usize = 0;
    assert(chars@.take(0) =~= Seq::empty());
    while i < chars.len()
        invariant
            i <= chars.len(),
            kept@ == compact(chars@.take(i as int)),
        decreases chars.len() - i,
    {
        proof {
            let head = chars@.take(i + 1);
            assert(head.drop_last() =~= chars@.take(i as int));
            assert(head.last() == chars@[i as int]);
        }
        if chars[i] != ' ' {
            kept.push(chars[i]);
        }
        i = i + 1;
    }
    assert(chars@.take(chars.len() as int) =~= chars@);
    kept
}

/// Whether a character separates fields.
pub fn blank(c: char) -> (b: bool)
    ensures
        b == is_blank(c),
{
    c == ' ' || c == '\t' || c == '\n' || c == '\r' || c == '\x0b' || c == '\x0c'
}

/// The fields of the characters.
pub fn split_fields(chars: &Vec<char>) -> (pieces: Vec<Vec<char>>)
    ensures
        pieces_view(pieces@) == fields(chars@),
{
    let mut pieces: Vec<Vec<char>> = Vec::new();
    let mut i: usize = 0;
    assert(chars@.take(0) =~= Seq::empty());
    assert(pieces_view(pieces@) =~= fields(chars@.take(0)));
    while i < chars.len()
        invariant
            i <= chars.len(),
            pieces_view(pieces@) == fields(chars@.take(i as int)),
            i > 0 && !is_blank(chars@[i - 1]) ==> pieces.len() > 0,
        decreases chars.len() - i,
    {
        let ghost before = pieces_view(pieces@);
        proof {
            let head = chars@.take(i + 1);
            assert(head.drop_last() =~= chars@.take(i as int));
            assert(head.last() == chars@[i as int]);
            if i > 0 {
                assert(head[head.len() - 2] == chars@[i - 1]);
            }
        }
        let c = chars[i];
        if !blank(c) {
            if i > 0 && !blank(chars[i - 1]) {
                let last = pieces.len() - 1;
                pieces[last].push(c);
                assert(pieces_view(pieces@) =~= before.drop_last().push(before.last().push(c)));
            } else {
                let mut piece: Vec<char> = Vec::new();
                piece.push(c);
                pieces.push(piece);
                assert(piece@ =~= seq![c]);
                assert(pieces_view(pieces@) =~= before.push(seq![c]));
            }
        }
        i = i + 1;
    }
    assert(chars@.take(chars.len() as int) =~= chars@);
    pieces
}

/// The pieces of the characters between their commas.
pub fn split_at_commas(chars: &Vec<char>) -> (pieces: Vec<Vec<char>>)
    ensures
        pieces_view(pieces@) == split_commas(chars@),
{
    split_at_mark(chars, ',')
}

/// The pieces of the characters between the places where `mark` stands.
pub fn split_at_mark(chars: &Vec<char>, mark: char) -> (pieces: Vec<Vec<char>>)
    ensures
        pieces_view(pieces@) == split_on(chars@, mark),
        pieces.len() > 0,
{
    let mut pieces: Vec<Vec<char>> = Vec::new();
    pieces.push(Vec::new());
    let mut i: usize = 0;
    assert(chars@.take(0) =~= Seq::empty());
    assert(pieces_view(pieces@) =~= split_on(chars@.take(0), mark));
    while i < chars.len()
        invariant
            i <= chars.len(),
            pieces.len() > 0,
            pieces_view(pieces@) == split_on(chars@.take(i as int), mark),
        decreases chars.len() - i,
    {
        let ghost before = pieces_view(pieces@);
        proof {
            let head = chars@.take(i + 1);
            assert(head.drop_last() =~= chars@.take(i as int));
            assert(head.last() == chars@[i as int]);
        }
        let c = chars[i];
        if c == mark {
            pieces.push(Vec::new());
            assert(pieces_view(pieces@) =~= before.push(Seq::empty()));
        } else {
            let last = pieces.len() - 1;
            pieces[last].push(c);
            assert(pieces_view(pieces@) =~= before.drop_last().push(before.last().push(c)));
        }
        i = i + 1;
    }
    assert(chars@.take(chars.len() as int) =~= chars@);
    pieces
}

} // verus!
