//! The codec on text: encoding the UTF-8 bytes of a string, and decoding to
//! a string where the decoded bytes are valid UTF-8.

use crate::decode::{decode_base64, decoded, DecodeError};
use crate::encode::{encode_base64, encoded};
use crate::laws::lemma_round_trip;
use vstd::prelude::*;
use vstd::utf8::{
    decode_utf8, encode_utf8, encode_utf8_decode_utf8, encode_utf8_valid_utf8, valid_utf8,
};

verus! {

/// Why a text does not decode to a string.
#[derive(Debug, Clone, Copy, PartialEq, Eq, Structural)]
pub enum TextError {
    /// The text is not the encoding of any byte sequence.
    Malformed(DecodeError),
    /// The text decodes to bytes that are not valid UTF-8.
    NotText,
}

/// The encoding of the UTF-8 bytes of `chars`.
pub open spec fn encoded_text(chars: Seq<char>) -> Seq<char> {
    encoded(encode_utf8(chars))
}

/// The string that `text` decodes to. A text that does not decode and a
/// text that decodes to bytes that are no string are told apart.
pub open spec fn decoded_text(text: Seq<char>) -> Result<Seq<char>, TextError> {
    match decoded(text) {
        Err(e) => Err(TextError::Malformed(e)),
        Ok(bytes) => if valid_utf8(bytes) {
            Ok(decode_utf8(bytes))
        } else {
            Err(TextError::NotText)
        },
    }
}

/// Decoding the encoding of any string gives the string back.
pub proof fn lemma_text_round_trip(chars: Seq<char>)
    ensures
        decoded_text(encoded_text(chars)) == Ok::<Seq<char>, TextError>(chars),
{
    lemma_round_trip(encode_utf8(chars));
    encode_utf8_valid_utf8(chars);
    encode_utf8_decode_utf8(chars);
}

/// Encodes the UTF-8 bytes of `input`.
pub fn encode_text(input: &str) -> (output: String)
    ensures
        output@ == encoded_text(input@),
{
    encode_base64(input.as_bytes())
}

/// Decodes `input` to a string.
pub fn decode_text(input: &str) -> (r: Result<String, TextError>)
    ensures
        match r {
            Ok(s) => decoded_text(input@) == Ok::<Seq<char>, TextError>(s@),
            Err(e) => decoded_text(input@) == Err::<Seq<char>, TextError>(e),
        },
{
    match decode_base64(input) {
        Err(e) => Err(TextError::Malformed(e)),
        Ok(bytes) => match String::from_utf8(bytes) {
            Ok(s) => Ok(s),
            Err(_) => Err(TextError::NotText),
        },
    }
}

} // verus!
