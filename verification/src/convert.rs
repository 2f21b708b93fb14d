//! Conversion between 32-bit counters and their four-byte little-endian form.

use vstd::prelude::*;

verus! {

/// The unsigned number that four bytes spell, least significant byte first.
pub open spec fn le_unsigned(bytes: Seq<u8>) -> int {
    bytes[0] as int + 256 * (bytes[1] as int) + 65536 * (bytes[2] as int) + 16777216 * (
    bytes[3] as int)
}

/// The two's complement number that four bytes spell, least significant byte
/// first.
pub open spec fn le_signed(bytes: Seq<u8>) -> int {
    if le_unsigned(bytes) < 2147483648 {
        le_unsigned(bytes)
    } else {
        le_unsigned(bytes) - 4294967296
    }
}

/// The four bytes of a 32-bit two's complement number, least significant
/// byte first.
pub open spec fn le_bytes(value: int) -> Seq<u8> {
    let u = if value < 0 {
        value + 4294967296
    } else {
        value
    };
    seq![
        (u % 256) as u8,
        ((u / 256) % 256) as u8,
        ((u / 65536) % 256) as u8,
        ((u / 16777216) % 256) as u8,
    ]
}

/// The four base-256 digits of a number below 2^32 are its digits.
proof fn lemma_base_256(b0: int, b1: int, b2: int, b3: int)
    requires
        0 <= b0 < 256,
        0 <= b1 < 256,
        0 <= b2 < 256,
        0 <= b3 < 256,
    ensures
        ({
            let u = b0 + 256 * b1 + 65536 * b2 + 16777216 * b3;
            &&& 0 <= u < 4294967296
            &&& u % 256 == b0
            &&& (u / 256) % 256 == b1
            &&& (u / 65536) % 256 == b2
            &&& (u / 16777216) % 256 == b3
        }),
{
}

/// A number below 2^32 is the sum of its four base-256 digits.
proof fn lemma_digits_256(u: int)
    requires
        0 <= u < 4294967296,
    ensures
        u == u % 256 + 256 * ((u / 256) % 256) + 65536 * ((u / 65536) % 256) + 16777216 * ((u
            / 16777216) % 256),
{
}

/// Reading back the bytes of a 32-bit number gives the number.
pub proof fn lemma_le_signed_of_le_bytes(value: int)
    requires
        i32::MIN <= value <= i32::MAX,
    ensures
        le_bytes(value).len() == 4,
        le_signed(le_bytes(value)) == value,
{
    let u = if value < 0 {
        value + 4294967296
    } else {
        value
    };
    lemma_digits_256(u);
}

/// Writing out the number that four bytes spell gives the four bytes.
pub proof fn lemma_le_bytes_of_le_signed(bytes: Seq<u8>)
    requires
        bytes.len() == 4,
    ensures
        i32::MIN <= le_signed(bytes) <= i32::MAX,
        le_bytes(le_signed(bytes)) == bytes,
{
    lemma_base_256(bytes[0] as int, bytes[1] as int, bytes[2] as int, bytes[3] as int);
    assert(le_bytes(le_signed(bytes)) =~= bytes);
}

/// Reads a counter from its little-endian form; only sequences of exactly
/// four bytes spell a counter.
pub fn vec_to_i32(vec: Vec<u8>) -> (value: Option<i32>)
    ensures
        value is Some <==> vec@.len() == 4,
        value is Some ==> value->0 == le_signed(vec@),
{
    if vec.len() == 4 {
        let unsigned: i64 = vec[0] as i64 + 256 * (vec[1] as i64) + 65536 * (vec[2] as i64)
            + 16777216 * (vec[3] as i64);
        if unsigned < 2147483648 {
            Some(unsigned as i32)
        } else {
            Some((unsigned - 4294967296) as i32)
        }
    } else {
        None
    }
}

/// Reads the counter that the first four bytes of a value spell; a shorter
/// value spells none.
pub fn leading_i32(bytes: &Vec<u8>) -> (value: Option<i32>)
    ensures
        value is Some <==> bytes@.len() >= 4,
        value is Some ==> value->0 == le_signed(bytes@.take(4)),
{
    if bytes.len() >= 4 {
        let unsigned: i64 = bytes[0] as i64 + 256 * (bytes[1] as i64) + 65536 * (bytes[2] as i64)
            + 16777216 * (bytes[3] as i64);
        if unsigned < 2147483648 {
            Some(unsigned as i32)
        } else {
            Some((unsigned - 4294967296) as i32)
        }
    } else {
        None
    }
}

/// Writes a counter in its little-endian form.
pub fn i32_to_vec(value: i32) -> (bytes: Vec<u8>)
    ensures
        bytes@ == le_bytes(value as int),
{
    let unsigned: i64 = if value < 0 {
        value as i64 + 4294967296
    } else {
        value as i64
    };
    let mut bytes: Vec<u8> = Vec::new();
    bytes.push((unsigned % 256) as u8);
    bytes.push(((unsigned / 256) % 256) as u8);
    bytes.push(((unsigned / 65536) % 256) as u8);
    bytes.push(((unsigned / 16777216) % 256) as u8);
    assert(bytes@ =~= le_bytes(value as int));
    bytes
}

} // verus!
