//! What the engine takes on trust from the standard library and from other
//! crates. Nothing here is proved: each contract is what the called function
//! is documented to do.

use aes::Aes256;
use block_modes::block_padding::Pkcs7;
use block_modes::{BlockMode, Cbc};
use chrono::Datelike;
use rand::Rng;
use std::string::FromUtf8Error;
use std::time::{Duration, Instant};
use vstd::prelude::*;
use vstd::utf8::{encode_utf8, valid_utf8};

verus! {

/// What base64 text stands for: the bytes that the standard alphabet with
/// padding decodes `input` to, or nothing where `input` is no such text.
pub uninterp spec fn base64_decoded(input: Seq<u8>) -> Option<Seq<u8>>;

/// Why the `base64` crate could not decode a text, `base64::DecodeError`.
#[verifier::external_type_specification]
#[verifier::external_body]
pub struct ExDecodeError(base64::DecodeError);

/// `base64::decode`: decodes `input` with the standard alphabet and padding.
/// The result depends on the bytes of `input` alone; the contract gives it
/// the name `base64_decoded` and claims nothing more of it.
#[verifier::external_body]
#[allow(deprecated)]
pub(crate) fn base64_decode(input: &Vec<u8>) -> (decoded: Result<Vec<u8>, base64::DecodeError>)
    ensures
        match base64_decoded(input@) {
            Some(bytes) => decoded matches Ok(out) && out@ == bytes,
            None => decoded is Err,
        },
{
    base64::decode(input)
}

/// The bytes that AES-256 in CBC mode, with PKCS#7 padding, makes of
/// `plaintext` under `key` and the initialisation vector `iv`.
pub uninterp spec fn aes256_cbc_encrypted(key: Seq<u8>, iv: Seq<u8>, plaintext: Seq<u8>) -> Seq<
    u8,
>;

/// The bytes that AES-256 in CBC mode, with PKCS#7 padding, recovers from
/// `ciphertext` under `key` and the initialisation vector `iv`, or nothing
/// where `ciphertext` is no whole number of blocks or its padding is
/// malformed.
pub uninterp spec fn aes256_cbc_decrypted(key: Seq<u8>, iv: Seq<u8>, ciphertext: Seq<u8>) -> Option<
    Seq<u8>,
>;

/// Why a block mode could not decrypt, `block_modes::BlockModeError`.
#[verifier::external_type_specification]
#[verifier::external_body]
pub struct ExBlockModeError(block_modes::BlockModeError);

/// `BlockMode::encrypt_vec` of the `block-modes` crate, on a
/// `Cbc<Aes256, Pkcs7>` made by `BlockMode::new_from_slices`. The result
/// depends on the key, the vector and the plaintext alone; the contract
/// gives it the name `aes256_cbc_encrypted` and claims nothing more of it.
/// `new_from_slices` fails on a key that is not 32 bytes long and on a
/// vector that is not 16, which `requires` leaves out.
#[verifier::external_body]
pub(crate) fn aes256_cbc_encrypt(key: &[u8], iv: &[u8], plaintext: &[u8]) -> (ciphertext: Vec<u8>)
    requires
        key@.len() == 32,
        iv@.len() == 16,
    ensures
        ciphertext@ == aes256_cbc_encrypted(key@, iv@, plaintext@),
{
    Cbc::<Aes256, Pkcs7>::new_from_slices(key, iv).expect("Invalid key or IV").encrypt_vec(
        plaintext,
    )
}

/// `BlockMode::decrypt_vec` of the `block-modes` crate, on a
/// `Cbc<Aes256, Pkcs7>` made by `BlockMode::new_from_slices`. The result
/// depends on the key, the vector and the ciphertext alone; the contract
/// gives it the name `aes256_cbc_decrypted` and claims nothing more of it.
/// `new_from_slices` fails on a key that is not 32 bytes long and on a
/// vector that is not 16, which `requires` leaves out.
#[verifier::external_body]
pub(crate) fn aes256_cbc_decrypt(key: &[u8], iv: &[u8], ciphertext: &[u8]) -> (plaintext: Result<
    Vec<u8>,
    block_modes::BlockModeError,
>)
    requires
        key@.len() == 32,
        iv@.len() == 16,
    ensures
        match aes256_cbc_decrypted(key@, iv@, ciphertext@) {
            Some(bytes) => plaintext matches Ok(out) && out@ == bytes,
            None => plaintext is Err,
        },
{
    Cbc::<Aes256, Pkcs7>::new_from_slices(key, iv).expect("Invalid key or IV").decrypt_vec(
        ciphertext,
    )
}

/// The day that lies `days` days before the day `day` of the month `month`
/// of the year `year` in the proleptic Gregorian calendar, as year, month
/// and day; or nothing where the three numbers name no day, or where the
/// result is a day that the `chrono` crate cannot hold.
pub uninterp spec fn date_days_before(year: int, month: int, day: int, days: int) -> Option<
    (int, int, int),
>;

/// `NaiveDate::checked_sub_signed` of the `chrono` crate, on the date that
/// `NaiveDate::from_ymd_opt` makes of the three numbers and the span that
/// `TimeDelta::try_days` makes of `days`. The result depends on the four
/// numbers alone; the contract gives it the name `date_days_before`, and
/// claims of it only that its month lies between 1 and 12 and its day
/// between 1 and 31, as `Datelike::month` and `Datelike::day` say.
#[verifier::external_body]
pub(crate) fn days_before(year: i32, month: u32, day: u32, days: i64) -> (date: Option<(i32, u32, u32)>)
    ensures
        match date_days_before(year as int, month as int, day as int, days as int) {
            Some(found) => date == Some((found.0 as i32, found.1 as u32, found.2 as u32))
                && i32::MIN <= found.0 <= i32::MAX && 1 <= found.1 <= 12 && 1 <= found.2 <= 31,
            None => date is None,
        },
{
    let span = chrono::TimeDelta::try_days(days)?;
    let date = chrono::NaiveDate::from_ymd_opt(year, month, day)?.checked_sub_signed(span)?;
    Some((date.year(), date.month(), date.day()))
}

/// `Local::now` of the `chrono` crate: today's date in the local time zone,
/// as year, month and day. Of the result only what `Datelike::month` and
/// `Datelike::day` say is claimed: the month lies between 1 and 12 and the
/// day between 1 and 31.
#[verifier::external_body]
pub(crate) fn local_today() -> (date: (i32, u32, u32))
    ensures
        1 <= date.1 <= 12,
        1 <= date.2 <= 31,
{
    let today = chrono::Local::now().date_naive();
    (today.year(), today.month(), today.day())
}

/// `String::push`: the text with `c` added at its end.
pub assume_specification[ String::push ](text: &mut String, c: char)
    ensures
        final(text)@ == old(text)@.push(c),
;

/// Why bytes are no text, `std::string::FromUtf8Error`.
#[verifier::external_type_specification]
#[verifier::external_body]
pub struct ExFromUtf8Error(FromUtf8Error);

/// `String::from_utf8`: the text whose UTF-8 form the bytes are. It is
/// there exactly when the bytes are valid UTF-8.
pub assume_specification[ String::from_utf8 ](bytes: Vec<u8>) -> (text: Result<
    String,
    FromUtf8Error,
>)
    ensures
        text is Ok <==> valid_utf8(bytes@),
        text matches Ok(s) ==> encode_utf8(s@) == bytes@,
;

/// A moment on the monotonic clock, `std::time::Instant`.
#[verifier::external_type_specification]
#[verifier::external_body]
pub struct ExInstant(Instant);

/// `Instant::now`: the present moment. Nothing is claimed of it.
pub assume_specification[ Instant::now ]() -> (moment: Instant)
;

/// `Instant::duration_since`: the time that passed from `anchor` to `moment`.
/// Nothing is claimed of it.
pub assume_specification[ Instant::duration_since ](moment: &Instant, anchor: Instant) -> (passed:
    Duration)
;

/// `Duration::as_millis`: the whole milliseconds of a span of time. Nothing
/// is claimed of it.
pub assume_specification[ Duration::as_millis ](span: &Duration) -> (millis: u128)
;

/// `str`'s equality, `<str as PartialEq>::eq`: two texts are equal exactly
/// when they are made of the same characters.
pub assume_specification[ <str as PartialEq>::eq ](a: &str, b: &str) -> (same: bool)
    ensures
        same == (a@ == b@),
;

/// A number below `bound`, every one with equal chances: `Rng::gen_range`
/// of the `rand` crate on the thread's generator, over `0..bound`. The
/// outside function panics on an empty range, which `requires` leaves out.
#[verifier::external_body]
pub(crate) fn random_below(bound: usize) -> (drawn: usize)
    requires
        bound > 0,
    ensures
        drawn < bound,
{
    rand::thread_rng().gen_range(0..bound)
}

/// Whether two texts are made of the same characters.
pub fn str_eq(a: &str, b: &str) -> (same: bool)
    ensures
        same == (a@ == b@),
{
    a.eq(b)
}

} // verus!
