//! The shift cipher, or Caesar cipher, on bytes.
//!
//! Each byte is moved by the key modulo 256, so every key from 0 to 255 is
//! valid and every byte sequence has a cipher text. A text is enciphered
//! through its UTF-8 bytes; the result is a text again only where the moved
//! bytes happen to be UTF-8, and an error where they are not.
use crate::general::errors::ClassicalCryptographyErr;
use std::string::FromUtf8Error;
use vstd::prelude::*;
use vstd::string::{StrSliceExecFns, StringSliceAdditionalSpecFns};
use vstd::utf8::{
    decode_utf8, encode_utf8, encode_utf8_decode_utf8, encode_utf8_valid_utf8, valid_utf8,
};

verus! {

/// A byte moved up by the key, modulo 256.
pub open spec fn shifted_byte(byte: u8, key: u8) -> u8 {
    ((byte + key) % 256) as u8
}

/// A byte moved down by the key, modulo 256.
pub open spec fn unshifted_byte(byte: u8, key: u8) -> u8 {
    ((byte - key) % 256) as u8
}

/// Every byte moved up by the key.
pub open spec fn shifted(bytes: Seq<u8>, key: u8) -> Seq<u8> {
    bytes.map_values(|byte: u8| shifted_byte(byte, key))
}

/// Every byte moved down by the key.
pub open spec fn unshifted(bytes: Seq<u8>, key: u8) -> Seq<u8> {
    bytes.map_values(|byte: u8| unshifted_byte(byte, key))
}

/// Deciphering undoes enciphering, and enciphering undoes deciphering, for
/// every key and every byte sequence.
pub proof fn lemma_shift_round_trip(bytes: Seq<u8>, key: u8)
    ensures
        unshifted(shifted(bytes, key), key) == bytes,
        shifted(unshifted(bytes, key), key) == bytes,
{
    assert forall|i: int| 0 <= i < bytes.len() implies unshifted(shifted(bytes, key), key)[i]
        == bytes[i] by {
        assert(unshifted_byte(shifted_byte(bytes[i], key), key) == bytes[i]);
    }
    assert forall|i: int| 0 <= i < bytes.len() implies shifted(unshifted(bytes, key), key)[i]
        == bytes[i] by {
        assert(shifted_byte(unshifted_byte(bytes[i], key), key) == bytes[i]);
    }
    assert(unshifted(shifted(bytes, key), key) =~= bytes);
    assert(shifted(unshifted(bytes, key), key) =~= bytes);
}

/// The cipher text of a byte sequence: each byte moved up by the key.
pub fn shift_encipher(bytes: &Vec<u8>, key: u8) -> (cipher: Vec<u8>)
    ensures
        cipher@ == shifted(bytes@, key),
{
    let mut cipher: Vec<u8> = Vec::new();
    let mut i: usize = 0;
    while i < bytes.len()
        invariant
            i <= bytes.len(),
            cipher@.len() == i,
            forall|k: int| 0 <= k < i ==> cipher@[k] == shifted_byte(bytes@[k], key),
        decreases bytes.len() - i,
    {
        cipher.push(bytes[i].wrapping_add(key));
        i = i + 1;
    }
    assert(cipher@ =~= shifted(bytes@, key));
    cipher
}

/// The plain bytes of a cipher text: each byte moved down by the key.
pub fn shift_decipher(bytes: &Vec<u8>, key: u8) -> (plain: Vec<u8>)
    ensures
        plain@ == unshifted(bytes@, key),
{
    let mut plain: Vec<u8> = Vec::new();
    let mut i: usize = 0;
    while i < bytes.len()
        invariant
            i <= bytes.len(),
            plain@.len() == i,
            forall|k: int| 0 <= k < i ==> plain@[k] == unshifted_byte(bytes@[k], key),
        decreases bytes.len() - i,
    {
        plain.push(bytes[i].wrapping_sub(key));
        i = i + 1;
    }
    assert(plain@ =~= unshifted(bytes@, key));
    plain
}

/// `String::from_utf8` of the standard library. It gives the text of which
/// the bytes are the UTF-8 encoding, and it gives one for every byte sequence
/// that is UTF-8; for any other it gives its error.
#[verifier::external_body]
fn text_of_utf8(bytes: Vec<u8>) -> (r: Result<String, FromUtf8Error>)
    ensures
        valid_utf8(bytes@) ==> r is Ok,
        r matches Ok(text) ==> encode_utf8(text@) == bytes@,
{
    String::from_utf8(bytes)
}

/// The text that a byte sequence encodes, or the cipher error for bytes that
/// are not UTF-8.
fn text_of(bytes: Vec<u8>) -> (r: Result<String, ClassicalCryptographyErr>)
    ensures
        r is Ok <==> valid_utf8(bytes@),
        match r {
            Ok(text) => text@ == decode_utf8(bytes@) && encode_utf8(text@) == bytes@,
            Err(e) => e is FromUtf8Err,
        },
{
    match text_of_utf8(bytes) {
        Ok(text) => {
            proof {
                encode_utf8_valid_utf8(text@);
                encode_utf8_decode_utf8(text@);
            }
            Ok(text)
        },
        Err(error) => Err(ClassicalCryptographyErr::FromUtf8Err(error)),
    }
}

/// The shift cipher on a text.
pub trait ShiftCipher: Sized {
    /// The UTF-8 bytes of the text.
    spec fn plain_bytes(self) -> Seq<u8>;

    /// The text whose bytes are those of `self` moved up by the key; an error
    /// where the moved bytes are no text.
    fn encipher(self, key: u8) -> (r: Result<Self, ClassicalCryptographyErr>)
        ensures
            r is Ok <==> valid_utf8(shifted(self.plain_bytes(), key)),
            match r {
                Ok(cipher) => cipher.plain_bytes() == shifted(self.plain_bytes(), key),
                Err(e) => e is FromUtf8Err,
            },
    ;

    /// The text whose bytes are those of `self` moved down by the key; an
    /// error where the moved bytes are no text.
    fn decipher(self, key: u8) -> (r: Result<Self, ClassicalCryptographyErr>)
        ensures
            r is Ok <==> valid_utf8(unshifted(self.plain_bytes(), key)),
            match r {
                Ok(plain) => plain.plain_bytes() == unshifted(self.plain_bytes(), key),
                Err(e) => e is FromUtf8Err,
            },
    ;
}

impl ShiftCipher for String {
    open spec fn plain_bytes(self) -> Seq<u8> {
        encode_utf8(self@)
    }

    fn encipher(self, key: u8) -> (r: Result<Self, ClassicalCryptographyErr>) {
        let bytes = self.as_str().as_bytes_vec();
        text_of(shift_encipher(&bytes, key))
    }

    fn decipher(self, key: u8) -> (r: Result<Self, ClassicalCryptographyErr>) {
        let bytes = self.as_str().as_bytes_vec();
        text_of(shift_decipher(&bytes, key))
    }
}

/// A text that was enciphered deciphers to itself: where `cipher` holds the
/// bytes of `plain` moved up by the key, moving them down again gives the
/// bytes of `plain`, which are a text.
pub proof fn lemma_text_round_trip(plain: String, cipher: String, key: u8)
    requires
        cipher.plain_bytes() == shifted(plain.plain_bytes(), key),
    ensures
        unshifted(cipher.plain_bytes(), key) == plain.plain_bytes(),
        valid_utf8(unshifted(cipher.plain_bytes(), key)),
        decode_utf8(unshifted(cipher.plain_bytes(), key)) == plain@,
{
    lemma_shift_round_trip(plain.plain_bytes(), key);
    encode_utf8_valid_utf8(plain@);
    encode_utf8_decode_utf8(plain@);
}

} // verus!
