//! What holds of the codec as a whole: the laws that relate encoding and
//! decoding, stated over their specifications.

use crate::alphabet::{lemma_value_of_symbol, symbol_value, PAD};
use crate::decode::{
    all_symbols, decoded, decoded_byte, decoded_len, lemma_stripped_len_unique, octet, quad,
    stripped, stripped_len, value_or_zero, DecodeError,
};
use crate::encode::{
    byte_or_zero, encoded, lemma_encoded_len, lemma_padding, padding_len, sextet, triple,
};
use vstd::prelude::*;

verus! {

/// The six-bit slices of a 24-bit value put back at their offsets give the
/// value.
proof fn lemma_sextets_rebuild(t: int)
    requires
        0 <= t < 0x100_0000,
    ensures
        sextet(t, 0) * 0x4_0000 + sextet(t, 1) * 0x1000 + sextet(t, 2) * 0x40 + sextet(t, 3) == t,
        forall|j: int| 0 <= #[trigger] sextet(t, j) < 64,
{
}

/// The bytes of a 24-bit value that was packed from three bytes are those
/// bytes.
proof fn lemma_octets_of_packed(b0: int, b1: int, b2: int)
    requires
        0 <= b0 < 256,
        0 <= b1 < 256,
        0 <= b2 < 256,
    ensures
        octet(b0 * 0x1_0000 + b1 * 0x100 + b2, 0) == b0,
        octet(b0 * 0x1_0000 + b1 * 0x100 + b2, 1) == b1,
        octet(b0 * 0x1_0000 + b1 * 0x100 + b2, 2) == b2,
{
}

/// What the encoding looks like to the decoder: its stripped length, and
/// the value of each character ahead of the padding.
proof fn lemma_encoded_body(bytes: Seq<u8>)
    ensures
        stripped_len(encoded(bytes)) == encoded(bytes).len() - padding_len(bytes.len()),
        forall|k: int|
            0 <= k < stripped_len(encoded(bytes)) ==> symbol_value(
                #[trigger] stripped(encoded(bytes))[k],
            ) == Some(sextet(triple(bytes, k / 4), k % 4)),
{
    let text = encoded(bytes);
    let p = text.len() - padding_len(bytes.len());
    lemma_padding(bytes);
    lemma_stripped_len_unique(text, p);
    assert forall|k: int| 0 <= k < p implies symbol_value(#[trigger] stripped(text)[k]) == Some(
        sextet(triple(bytes, k / 4), k % 4),
    ) by {
        assert(stripped(text)[k] == text[k]);
        assert(text[k] != PAD);
        lemma_sextets_rebuild(triple(bytes, k / 4));
        lemma_value_of_symbol(sextet(triple(bytes, k / 4), k % 4));
    }
}

/// Decoding the encoding of any byte sequence gives the sequence back.
pub proof fn lemma_round_trip(bytes: Seq<u8>)
    ensures
        decoded(encoded(bytes)) == Ok::<Seq<u8>, DecodeError>(bytes),
{
    let text = encoded(bytes);
    let body = stripped(text);
    let n = bytes.len();
    lemma_encoded_body(bytes);
    lemma_encoded_len(bytes);
    assert(body.len() % 4 != 1);
    assert(all_symbols(body));
    assert(decoded_len(body.len()) == n);
    let out = Seq::new(decoded_len(body.len()), |i: int| decoded_byte(body, i));
    assert forall|i: int| 0 <= i < n implies out[i] == bytes[i] by {
        let g = i / 3;
        let t = triple(bytes, g);
        lemma_sextets_rebuild(t);
        assert forall|j: int| 0 <= j < 4 implies value_or_zero(body, 4 * g + j) == sextet(
            t,
            j,
        ) by {
            let k = 4 * g + j;
            assert(k / 4 == g && k % 4 == j);
        }
        assert(value_or_zero(body, 4 * g) == sextet(t, 0));
        assert(value_or_zero(body, 4 * g + 1) == sextet(t, 1));
        assert(value_or_zero(body, 4 * g + 2) == sextet(t, 2));
        assert(value_or_zero(body, 4 * g + 3) == sextet(t, 3));
        assert(quad(body, g) == t);
        lemma_octets_of_packed(
            byte_or_zero(bytes, 3 * g),
            byte_or_zero(bytes, 3 * g + 1),
            byte_or_zero(bytes, 3 * g + 2),
        );
    }
    assert(out =~= bytes);
}

/// Encoding loses nothing: two byte sequences with the same encoding are
/// the same sequence.
pub proof fn lemma_encoding_injective(a: Seq<u8>, b: Seq<u8>)
    requires
        encoded(a) == encoded(b),
    ensures
        a == b,
{
    lemma_round_trip(a);
    lemma_round_trip(b);
}

} // verus!
