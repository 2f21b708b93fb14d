//! The name of the file that holds the log of a day.

use crate::outside::local_today;
use crate::persistent::command::{digit_char, digit_str};
use vstd::prelude::*;
use vstd::string::*;

verus! {

/// A day of the calendar.
#[derive(Clone, Copy, Debug, PartialEq, Eq, Structural)]
pub struct Date {
    pub year: i32,
    pub month: u32,
    pub day: u32,
}

/// A number below one hundred in two decimal digits.
pub open spec fn two_digits(n: int) -> Seq<char> {
    seq![digit_char(n / 10), digit_char(n % 10)]
}

/// A number below ten thousand in four decimal digits.
pub open spec fn four_digits(n: int) -> Seq<char> {
    seq![digit_char(n / 1000), digit_char((n / 100) % 10), digit_char((n / 10) % 10), digit_char(n % 10)]
}

/// A day as the file names write it: day, month and year, with hyphens
/// between them.
pub open spec fn date_text(date: Date) -> Seq<char> {
    two_digits(date.day as int) + seq!['-'] + two_digits(date.month as int) + seq!['-']
        + four_digits(date.year as int)
}

/// Whether a day can be written in a file name: the day and the month must
/// have two digits at most, and the year must lie between 0 and 9999.
pub open spec fn writable(date: Date) -> bool {
    date.day < 100 && date.month < 100 && 0 <= date.year <= 9999
}

/// The name of the file that holds the log of a day: `persistent_`, the
/// day, and `.rus`.
pub open spec fn file_name_of(date: Date) -> Seq<char> {
    seq!['p', 'e', 'r', 's', 'i', 's', 't', 'e', 'n', 't', '_'] + date_text(date) + seq![
        '.',
        'r',
        'u',
        's',
    ]
}

/// The four digits of a number are the two of its hundreds and the two of
/// the rest.
pub proof fn lemma_four_digits(n: int)
    requires
        0 <= n <= 9999,
    ensures
        four_digits(n) == two_digits(n / 100) + two_digits(n % 100),
{
    assert((n / 100) / 10 == n / 1000);
    assert((n % 100) / 10 == (n / 10) % 10);
    assert((n % 100) % 10 == n % 10);
    assert(four_digits(n) =~= two_digits(n / 100) + two_digits(n % 100));
}

/// Writes a number below one hundred in two digits at the end of `text`.
pub fn push_two_digits(text: &mut String, n: u32)
    requires
        n < 100,
    ensures
        final(text)@ == old(text)@ + two_digits(n as int),
{
    text.append(digit_str((n / 10) as u8));
    text.append(digit_str((n % 10) as u8));
    assert(text@ =~= old(text)@ + two_digits(n as int));
}

/// The name of the file that holds the log of a day, where the day can be
/// written in a file name.
pub fn persistent_file_name(date: Date) -> (name: Option<String>)
    ensures
        match name {
            Some(text) => writable(date) && text@ == file_name_of(date),
            None => !writable(date),
        },
{
    if date.day >= 100 || date.month >= 100 || date.year < 0 || date.year > 9999 {
        return None;
    }
    proof {
        reveal_strlit("persistent_");
        reveal_strlit("-");
        reveal_strlit(".rus");
    }
    let mut written = String::new();
    push_two_digits(&mut written, date.day);
    written.append("-");
    push_two_digits(&mut written, date.month);
    written.append("-");
    assert(written@ =~= two_digits(date.day as int) + seq!['-'] + two_digits(date.month as int)
        + seq!['-']);
    let year = date.year as u32;
    let ghost before = written@;
    push_two_digits(&mut written, year / 100);
    push_two_digits(&mut written, year % 100);
    proof {
        lemma_four_digits(date.year as int);
        assert(written@ =~= before + four_digits(date.year as int));
        assert(written@ =~= date_text(date));
    }
    let mut name = String::from_str("persistent_");
    name.append(written.as_str());
    name.append(".rus");
    assert(name@ =~= file_name_of(date));
    Some(name)
}

/// Today's date in the local time zone.
pub fn today() -> (date: Date)
    ensures
        1 <= date.month <= 12,
        1 <= date.day <= 31,
{
    let (year, month, day) = local_today();
    Date { year, month, day }
}

} // verus!
