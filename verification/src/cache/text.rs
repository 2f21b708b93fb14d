//! Values as text: what the bytes of a text entry stand for.
//!
//! A text entry holds base64. Decoded, the bytes are the UTF-8 form of the
//! text.

use crate::cache::cache::CacheType;
use crate::cache::model::EntryModel;
use crate::outside::{base64_decode, base64_decoded};
use vstd::prelude::*;
use vstd::string::*;
use vstd::utf8::{decode_utf8, valid_utf8};

verus! {

/// The text that bytes are the UTF-8 form of, where they are valid UTF-8.
pub open spec fn utf8_text(bytes: Seq<u8>) -> Option<Seq<char>> {
    if valid_utf8(bytes) {
        Some(decode_utf8(bytes))
    } else {
        None
    }
}

/// The bytes that a value stands for and the text they spell: the value is
/// base64, and what it decodes to is UTF-8. There is none where either
/// fails.
pub open spec fn spelled(value: Seq<u8>) -> Option<(Seq<u8>, Seq<char>)> {
    match base64_decoded(value) {
        Some(bytes) => match utf8_text(bytes) {
            Some(text) => Some((bytes, text)),
            None => None,
        },
        None => None,
    }
}

/// The text that a value stands for.
pub open spec fn text_of(value: Seq<u8>) -> Option<Seq<char>> {
    match spelled(value) {
        Some(pair) => Some(pair.1),
        None => None,
    }
}

/// The text that a text entry stands for; an entry of another kind stands
/// for none.
pub open spec fn text_of_entry(entry: Option<EntryModel>) -> Option<Seq<char>> {
    match entry {
        Some(e) => if e.kind == CacheType::Str {
            text_of(e.value)
        } else {
            None
        },
        None => None,
    }
}

/// The characters of `text` from place `start` to place `end`, both
/// counted from zero and both included. An `end` past the last character
/// stands for the last; a `start` past the last character, or past `end`,
/// gives nothing.
pub open spec fn range_of(text: Seq<char>, start: int, end: int) -> Option<Seq<char>> {
    if start < text.len() && start <= end {
        Some(text.subrange(start, if end + 1 < text.len() {
            end + 1
        } else {
            text.len() as int
        }))
    } else {
        None
    }
}

/// The text that bytes are the UTF-8 form of.
pub fn text_from_utf8(bytes: Vec<u8>) -> (text: Option<String>)
    ensures
        match utf8_text(bytes@) {
            Some(chars) => text matches Some(s) && s@ == chars,
            None => text is None,
        },
{
    match String::from_utf8(bytes) {
        Ok(s) => {
            proof {
                vstd::utf8::encode_utf8_decode_utf8(s@);
            }
            Some(s)
        },
        Err(_) => None,
    }
}

/// The text that a value stands for, with the number of bytes of its UTF-8
/// form.
pub fn decode_text(value: &Vec<u8>) -> (decoded: Option<(usize, String)>)
    ensures
        match spelled(value@) {
            Some(pair) => decoded matches Some(found) && found.0 == pair.0.len() && found.1@
                == pair.1,
            None => decoded is None,
        },
{
    match base64_decode(value) {
        Ok(bytes) => {
            let length = bytes.len();
            match text_from_utf8(bytes) {
                Some(text) => Some((length, text)),
                None => None,
            }
        },
        Err(_) => None,
    }
}

/// The characters of `text` from place `start` to place `end`, both
/// included.
pub fn substring(text: &str, start: u32, end: u32) -> (part: Option<String>)
    ensures
        match range_of(text@, start as int, end as int) {
            Some(chars) => part matches Some(s) && s@ == chars,
            None => part is None,
        },
{
    let length = text.unicode_len();
    if (start as u64) < length as u64 && start <= end {
        let from = start as usize;
        let to = if (end as u64) + 1 < length as u64 {
            (end as u64 + 1) as usize
        } else {
            length
        };
        Some(String::from_str(text.substring_char(from, to)))
    } else {
        None
    }
}

} // verus!
