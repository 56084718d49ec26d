//! Decoding: text to bytes, four symbols to three bytes, with strict
//! validation of length and characters.

use crate::alphabet::{decode_char, symbol_value, PAD};
use vstd::prelude::*;

verus! {

/// Why a text is not the encoding of any byte sequence.
#[derive(Debug, Clone, Copy, PartialEq, Eq, Structural)]
pub enum DecodeError {
    /// Without its trailing padding the text has a length that leaves a
    /// remainder of one when divided by four.
    InvalidLength,
    /// A character ahead of the trailing padding is outside the alphabet.
    InvalidCharacter,
}

/// The length of `text` without its trailing padding characters.
pub open spec fn stripped_len(text: Seq<char>) -> nat
    decreases text.len(),
{
    if text.len() > 0 && text.last() == PAD {
        stripped_len(text.drop_last())
    } else {
        text.len()
    }
}

/// `text` without its trailing padding characters.
pub open spec fn stripped(text: Seq<char>) -> Seq<char> {
    text.take(stripped_len(text) as int)
}

/// The six-bit value of the character at index `i`, or zero where the text
/// has no such character.
pub open spec fn value_or_zero(body: Seq<char>, i: int) -> int {
    if 0 <= i < body.len() {
        match symbol_value(body[i]) {
            Some(v) => v,
            None => 0,
        }
    } else {
        0
    }
}

/// The 24-bit value of group `g`: the values of its four characters at bit
/// offsets 18, 12, 6 and 0, an absent character counting as zero.
pub open spec fn quad(body: Seq<char>, g: int) -> int {
    value_or_zero(body, 4 * g) * 0x4_0000 + value_or_zero(body, 4 * g + 1) * 0x1000
        + value_or_zero(body, 4 * g + 2) * 0x40 + value_or_zero(body, 4 * g + 3)
}

/// Byte `j` of a 24-bit value, byte 0 being the most significant.
pub open spec fn octet(t: int, j: int) -> int {
    if j == 0 {
        (t / 0x1_0000) % 256
    } else if j == 1 {
        (t / 0x100) % 256
    } else {
        t % 256
    }
}

/// The number of bytes that `n` characters decode to: three for every full
/// group of four, one for a trailing group of two, two for one of three.
pub open spec fn decoded_len(n: nat) -> nat {
    if n % 4 == 0 {
        3 * (n / 4)
    } else {
        (3 * (n / 4) + (n % 4) - 1) as nat
    }
}

/// The byte at index `i` of what `body` decodes to.
pub open spec fn decoded_byte(body: Seq<char>, i: int) -> u8 {
    octet(quad(body, i / 3), i % 3) as u8
}

/// Whether every character of `body` is a symbol of the alphabet.
pub open spec fn all_symbols(body: Seq<char>) -> bool {
    forall|i: int| 0 <= i < body.len() ==> (#[trigger] symbol_value(body[i])) is Some
}

/// What `text` decodes to. The trailing padding is stripped first; then the
/// length is checked, then the characters.
pub open spec fn decoded(text: Seq<char>) -> Result<Seq<u8>, DecodeError> {
    let body = stripped(text);
    if body.len() % 4 == 1 {
        Err(DecodeError::InvalidLength)
    } else if !all_symbols(body) {
        Err(DecodeError::InvalidCharacter)
    } else {
        Ok(Seq::new(decoded_len(body.len()), |i: int| decoded_byte(body, i)))
    }
}

/// The stripped text is a prefix that does not end in padding, and all that
/// follows it is padding.
pub proof fn lemma_stripped_len(text: Seq<char>)
    ensures
        stripped_len(text) <= text.len(),
        stripped_len(text) > 0 ==> text[stripped_len(text) - 1] != PAD,
        forall|i: int| stripped_len(text) <= i < text.len() ==> text[i] == PAD,
    decreases text.len(),
{
    if text.len() > 0 && text.last() == PAD {
        let front = text.drop_last();
        lemma_stripped_len(front);
        assert forall|i: int| stripped_len(text) <= i < text.len() implies text[i] == PAD by {
            if i < front.len() {
                assert(front[i] == text[i]);
            }
        }
    }
}

/// A prefix of `text` that does not end in padding and is followed by
/// padding alone has the stripped length.
pub proof fn lemma_stripped_len_unique(text: Seq<char>, n: int)
    requires
        0 <= n <= text.len(),
        n > 0 ==> text[n - 1] != PAD,
        forall|i: int| n <= i < text.len() ==> text[i] == PAD,
    ensures
        stripped_len(text) == n,
    decreases text.len(),
{
    if text.len() > 0 && text.last() == PAD {
        lemma_stripped_len_unique(text.drop_last(), n);
    }
}

/// A text whose stripped length leaves a remainder of one when divided by
/// four is rejected for its length, whatever it holds.
pub proof fn lemma_rejects_length(text: Seq<char>)
    requires
        stripped(text).len() % 4 == 1,
    ensures
        decoded(text) == Err::<Seq<u8>, DecodeError>(DecodeError::InvalidLength),
{
}

/// A text with a character outside the alphabet ahead of its trailing
/// padding, at whatever index, is rejected for that character, unless it is
/// rejected for its length first.
pub proof fn lemma_rejects_character(text: Seq<char>, i: int)
    requires
        0 <= i < stripped(text).len(),
        symbol_value(stripped(text)[i]) is None,
        stripped(text).len() % 4 != 1,
    ensures
        decoded(text) == Err::<Seq<u8>, DecodeError>(DecodeError::InvalidCharacter),
{
}

/// Collects the characters of a string.
fn collect_chars(input: &str) -> (chars: Vec<char>)
    ensures
        chars@ == input@,
{
    let mut chars: Vec<char> = Vec::new();
    for c in it: input.chars()
        invariant
            it.seq() == input@,
            chars@ == it.seq().take(it.index() as int),
    {
        chars.push(c);
    }
    chars
}

/// The number of characters ahead of the trailing padding.
fn strip_padding(chars: &Vec<char>) -> (n: usize)
    ensures
        n == stripped_len(chars@),
{
    let mut n: usize = chars.len();
    while n > 0 && chars[n - 1] == PAD
        invariant
            n <= chars@.len(),
            forall|i: int| n <= i < chars@.len() ==> chars@[i] == PAD,
        decreases n,
    {
        n -= 1;
    }
    proof {
        lemma_stripped_len_unique(chars@, n as int);
    }
    n
}

/// Packs four six-bit values into a 24-bit accumulator, the first on top.
fn pack_quad(v1: u32, v2: u32, v3: u32, v4: u32) -> (t: u32)
    requires
        v1 < 64,
        v2 < 64,
        v3 < 64,
        v4 < 64,
    ensures
        t == v1 * 0x4_0000 + v2 * 0x1000 + v3 * 0x40 + v4,
{
    let t: u32 = (v1 << 18) | (v2 << 12) | (v3 << 6) | v4;
    assert(t == v1 * 0x4_0000 + v2 * 0x1000 + v3 * 0x40 + v4) by (bit_vector)
        requires
            v1 < 64,
            v2 < 64,
            v3 < 64,
            v4 < 64,
            t == (v1 << 18) | (v2 << 12) | (v3 << 6) | v4,
    ;
    t
}

/// Byte `j` of a 24-bit accumulator.
fn take_octet(t: u32, j: u32) -> (b: u8)
    requires
        j < 3,
    ensures
        b == octet(t as int, j as int),
{
    let shift: u32 = 16 - 8 * j;
    let v: u32 = (t >> shift) & 0xFF;
    assert(v < 256 && (j == 0 ==> v == (t / 0x1_0000) % 256) && (j == 1 ==> v == (t / 0x100)
        % 256) && (j == 2 ==> v == t % 256)) by (bit_vector)
        requires
            j < 3,
            shift == 16 - 8 * j,
            v == (t >> shift) & 0xFF,
    ;
    v as u8
}

/// The six-bit value of the character at index `i`, or the error for a
/// character outside the alphabet.
fn value_at(chars: &Vec<char>, n: usize, i: usize) -> (r: Result<u32, DecodeError>)
    requires
        i < n <= chars@.len(),
    ensures
        match r {
            Ok(v) => symbol_value(chars@[i as int]) == Some(v as int) && v < 64,
            Err(e) => e == DecodeError::InvalidCharacter && !all_symbols(chars@.take(n as int)),
        },
{
    match decode_char(chars[i]) {
        Some(v) => Ok(v),
        None => {
            assert(symbol_value(chars@.take(n as int)[i as int]) is None);
            Err(DecodeError::InvalidCharacter)
        },
    }
}

/// The 24-bit accumulator of the group that starts at index `i` of the
/// first `n` characters; the group's third and fourth character may be
/// absent.
fn group_value(chars: &Vec<char>, n: usize, i: usize) -> (r: Result<u32, DecodeError>)
    requires
        i % 4 == 0,
        n <= chars@.len(),
        2 <= n - i,
    ensures
        match r {
            Ok(t) => {
                &&& t == quad(chars@.take(n as int), i as int / 4)
                &&& forall|k: int|
                    i <= k < n && k < i + 4 ==> (#[trigger] symbol_value(chars@[k])) is Some
            },
            Err(e) => e == DecodeError::InvalidCharacter && !all_symbols(chars@.take(n as int)),
        },
{
    let v1: u32 = match value_at(chars, n, i) {
        Ok(v) => v,
        Err(e) => return Err(e),
    };
    let v2: u32 = match value_at(chars, n, i + 1) {
        Ok(v) => v,
        Err(e) => return Err(e),
    };
    let v3: u32 = if n - i > 2 {
        match value_at(chars, n, i + 2) {
            Ok(v) => v,
            Err(e) => return Err(e),
        }
    } else {
        0
    };
    let v4: u32 = if n - i > 3 {
        match value_at(chars, n, i + 3) {
            Ok(v) => v,
            Err(e) => return Err(e),
        }
    } else {
        0
    };
    proof {
        let body = chars@.take(n as int);
        let g = i as int / 4;
        assert(4 * g == i);
        assert(value_or_zero(body, 4 * g) == v1);
        assert(value_or_zero(body, 4 * g + 1) == v2);
        assert(value_or_zero(body, 4 * g + 2) == v3);
        assert(value_or_zero(body, 4 * g + 3) == v4);
    }
    Ok(pack_quad(v1, v2, v3, v4))
}

/// The bytes of group `g` stand at the indices `3 * g`, `3 * g + 1` and
/// `3 * g + 2` of the decoded sequence.
proof fn lemma_decoded_byte_of_group(body: Seq<char>, g: int, j: int)
    requires
        0 <= g,
        0 <= j < 3,
    ensures
        decoded_byte(body, 3 * g + j) == octet(quad(body, g), j) as u8,
{
    assert((3 * g + j) / 3 == g);
    assert((3 * g + j) % 3 == j);
}

/// Decodes `input`. Trailing padding is optional. A padding character
/// anywhere but at the end is rejected as a character outside the alphabet.
/// Of the two errors the one for the length comes first.
pub fn decode_base64(input: &str) -> (r: Result<Vec<u8>, DecodeError>)
    ensures
        match r {
            Ok(bytes) => decoded(input@) == Ok::<Seq<u8>, DecodeError>(bytes@),
            Err(e) => decoded(input@) == Err::<Seq<u8>, DecodeError>(e),
        },
        stripped(input@).len() % 4 == 1 ==> r matches Err(DecodeError::InvalidLength),
        stripped(input@).len() % 4 != 1 && !all_symbols(stripped(input@)) ==> r matches Err(
            DecodeError::InvalidCharacter,
        ),
        r matches Ok(bytes) ==> bytes@.len() == decoded_len(stripped(input@).len()),
{
    let chars: Vec<char> = collect_chars(input);
    let n: usize = strip_padding(&chars);
    proof {
        lemma_stripped_len(chars@);
    }
    if n % 4 == 1 {
        return Err(DecodeError::InvalidLength);
    }
    let ghost body = stripped(input@);
    let mut output: Vec<u8> = Vec::new();
    let mut i: usize = 0;
    while i < n
        invariant
            n <= chars@.len(),
            n % 4 != 1,
            body == stripped(input@),
            body == chars@.take(n as int),
            i <= n,
            i % 4 == 0 || i == n,
            output@.len() == decoded_len(i as nat),
            forall|k: int| 0 <= k < i ==> (#[trigger] symbol_value(body[k])) is Some,
            forall|k: int| 0 <= k < output@.len() ==> output@[k] == decoded_byte(body, k),
        decreases n - i,
    {
        let ghost g = i as int / 4;
        let ghost done = output@;
        assert(i == 4 * g && done.len() == 3 * g);
        let t: u32 = match group_value(&chars, n, i) {
            Ok(t) => t,
            Err(e) => return Err(e),
        };
        proof {
            lemma_decoded_byte_of_group(body, g, 0);
            lemma_decoded_byte_of_group(body, g, 1);
            lemma_decoded_byte_of_group(body, g, 2);
        }
        output.push(take_octet(t, 0));
        if n - i > 2 {
            output.push(take_octet(t, 1));
        }
        if n - i > 3 {
            output.push(take_octet(t, 2));
            i += 4;
            assert(i == 4 * (g + 1) && output@.len() == 3 * (g + 1));
        } else {
            i = n;
            assert(i / 4 == g && (i == 4 * g + 2 || i == 4 * g + 3));
            assert(output@.len() == 3 * g + (i % 4) - 1);
        }
        assert forall|k: int| 0 <= k < i implies (#[trigger] symbol_value(body[k])) is Some by {
            assert(body[k] == chars@[k]);
        }
        assert forall|k: int| 0 <= k < output@.len() implies output@[k] == decoded_byte(
            body,
            k,
        ) by {
            if k < done.len() {
                assert(output@[k] == done[k]);
            }
        }
    }
    assert(all_symbols(body));
    assert(output@ =~= Seq::new(decoded_len(body.len()), |k: int| decoded_byte(body, k)));
    Ok(output)
}

} // verus!
