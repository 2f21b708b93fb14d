//! Encrypting and decrypting text with AES-256 in CBC mode.

use crate::cache::get::copy_bytes;
use crate::cache::text::{text_from_utf8, utf8_text};
use crate::outside::{
    aes256_cbc_decrypt, aes256_cbc_decrypted, aes256_cbc_encrypt, aes256_cbc_encrypted,
};
use vstd::prelude::*;
use vstd::slice::slice_subrange;
use vstd::string::*;
use vstd::utf8::encode_utf8;

verus! {

/// The 32 bytes of a key: the bytes given, cut after the 32nd or filled up
/// with zeros.
pub open spec fn padded_key(bytes: Seq<u8>) -> Seq<u8> {
    Seq::new(
        32,
        |i: int|
            if i < bytes.len() {
                bytes[i]
            } else {
                0u8
            },
    )
}

/// What an encrypted text is decrypted to under `key`: the first 16 bytes
/// are the initialisation vector, the rest is the ciphertext, and what it
/// decrypts to is the UTF-8 form of the text. There is none where the data
/// is shorter than a vector, where the ciphertext does not decrypt, or
/// where the result is no UTF-8.
pub open spec fn decrypted_text(key: Seq<u8>, data: Seq<u8>) -> Option<Seq<char>> {
    if data.len() < 16 {
        None
    } else {
        match aes256_cbc_decrypted(key, data.subrange(0, 16), data.subrange(16, data.len() as int)) {
            Some(bytes) => utf8_text(bytes),
            None => None,
        }
    }
}

/// Encrypts and decrypts text under a fixed key.
pub struct Encryptor {
    key: Vec<u8>,
    iv_pattern: Vec<u8>,
}

impl Encryptor {
    /// The 32 bytes of the key.
    pub closed spec fn key(&self) -> Seq<u8> {
        self.key@
    }

    /// The 16 bytes of the initialisation vector that encryption uses.
    pub closed spec fn iv(&self) -> Seq<u8> {
        self.iv_pattern@
    }

    #[verifier::type_invariant]
    spec fn sized(self) -> bool {
        self.key@.len() == 32 && self.iv_pattern@.len() == 16
    }

    /// An encryptor under the key that the UTF-8 bytes of `key` give, cut
    /// after the 32nd or filled up with zeros, with `iv_pattern` as the
    /// initialisation vector of every encryption.
    pub fn new(key: &str, iv_pattern: [u8; 16]) -> (encryptor: Self)
        ensures
            encryptor.key() == padded_key(encode_utf8(key@)),
            encryptor.iv() == iv_pattern@,
    {
        let key_bytes = key.as_bytes();
        let mut padded: Vec<u8> = Vec::new();
        let mut i: usize = 0;
        while i < 32
            invariant
                i <= 32,
                key_bytes@ == encode_utf8(key@),
                padded@ == padded_key(key_bytes@).take(i as int),
            decreases 32 - i,
        {
            if i < key_bytes.len() {
                padded.push(key_bytes[i]);
            } else {
                padded.push(0);
            }
            assert(padded@ =~= padded_key(key_bytes@).take(i + 1));
            i = i + 1;
        }
        assert(padded_key(key_bytes@).take(32) =~= padded_key(key_bytes@));
        let mut iv: Vec<u8> = Vec::new();
        let mut j: usize = 0;
        while j < 16
            invariant
                j <= 16,
                iv@ == iv_pattern@.take(j as int),
            decreases 16 - j,
        {
            iv.push(iv_pattern[j]);
            assert(iv@ =~= iv_pattern@.take(j + 1));
            j = j + 1;
        }
        assert(iv_pattern@.take(16) =~= iv_pattern@);
        Encryptor { key: padded, iv_pattern: iv }
    }

    /// Encrypts `plaintext`: the result is the initialisation vector followed
    /// by the ciphertext of the UTF-8 bytes of the text.
    pub fn encrypt(&self, plaintext: &str) -> (encrypted: Vec<u8>)
        ensures
            encrypted@ == self.iv() + aes256_cbc_encrypted(
                self.key(),
                self.iv(),
                encode_utf8(plaintext@),
            ),
    {
        proof {
            use_type_invariant(self);
        }
        let mut ciphertext = aes256_cbc_encrypt(
            self.key.as_slice(),
            self.iv_pattern.as_slice(),
            plaintext.as_bytes(),
        );
        let mut encrypted = copy_bytes(&self.iv_pattern);
        encrypted.append(&mut ciphertext);
        encrypted
    }

    /// Decrypts what `encrypt` made: the text, or nothing where the data is
    /// no encrypted text.
    pub fn decrypt(&self, encrypted_data: &[u8]) -> (text: Option<String>)
        ensures
            match decrypted_text(self.key(), encrypted_data@) {
                Some(chars) => text matches Some(s) && s@ == chars,
                None => text is None,
            },
    {
        proof {
            use_type_invariant(self);
        }
        if encrypted_data.len() < 16 {
            return None;
        }
        let iv = slice_subrange(encrypted_data, 0, 16);
        let ciphertext = slice_subrange(encrypted_data, 16, encrypted_data.len());
        match aes256_cbc_decrypt(self.key.as_slice(), iv, ciphertext) {
            Ok(bytes) => text_from_utf8(bytes),
            Err(_) => None,
        }
    }
}

} // verus!
