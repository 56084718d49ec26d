//! Encoding: bytes to text, three bytes to four symbols.

use crate::alphabet::{encode_char, lemma_value_of_symbol, symbol, PAD};
use vstd::prelude::*;

verus! {

/// The byte at index `i`, or zero where the sequence has no such byte.
pub open spec fn byte_or_zero(bytes: Seq<u8>, i: int) -> int {
    if 0 <= i < bytes.len() {
        bytes[i] as int
    } else {
        0
    }
}

/// The 24-bit value of group `g`: its first byte in bits 16-23, its second
/// in bits 8-15, its third in bits 0-7, an absent byte counting as zero.
pub open spec fn triple(bytes: Seq<u8>, g: int) -> int {
    byte_or_zero(bytes, 3 * g) * 0x1_0000 + byte_or_zero(bytes, 3 * g + 1) * 0x100 + byte_or_zero(
        bytes,
        3 * g + 2,
    )
}

/// The six-bit slice `j` of a 24-bit value, slice 0 being the most
/// significant.
pub open spec fn sextet(t: int, j: int) -> int {
    if j == 0 {
        (t / 0x4_0000) % 64
    } else if j == 1 {
        (t / 0x1000) % 64
    } else if j == 2 {
        (t / 0x40) % 64
    } else {
        t % 64
    }
}

/// The length of the encoding of `n` bytes: four characters for every
/// group of three bytes, the last group possibly partial.
pub open spec fn encoded_len(n: nat) -> nat {
    4 * ((n + 2) / 3) as nat
}

/// The number of padding characters that end the encoding of `n` bytes.
pub open spec fn padding_len(n: nat) -> nat {
    if n % 3 == 0 {
        0
    } else if n % 3 == 1 {
        2
    } else {
        1
    }
}

/// Whether position `k` of the encoding holds padding: it is the third or
/// fourth character of a group whose second or third byte is absent.
pub open spec fn is_pad_position(bytes: Seq<u8>, k: int) -> bool {
    k % 4 >= 2 && 3 * (k / 4) + (k % 4) - 1 >= bytes.len()
}

/// The character at position `k` of the encoding of `bytes`.
pub open spec fn encoded_char(bytes: Seq<u8>, k: int) -> char {
    if is_pad_position(bytes, k) {
        PAD
    } else {
        symbol(sextet(triple(bytes, k / 4), k % 4))
    }
}

/// The encoding of `bytes`.
pub open spec fn encoded(bytes: Seq<u8>) -> Seq<char> {
    Seq::new(encoded_len(bytes.len()), |k: int| encoded_char(bytes, k))
}

/// Every six-bit slice is a six-bit value.
proof fn lemma_sextet_range(t: int, j: int)
    requires
        0 <= t,
    ensures
        0 <= sextet(t, j) < 64,
{
}

/// The encoding of `n` bytes has four characters for each started group of
/// three bytes, that is `4 * ceil(n / 3)`.
pub proof fn lemma_encoded_len(bytes: Seq<u8>)
    ensures
        encoded(bytes).len() == 4 * ((bytes.len() + 2) / 3),
        encoded(bytes).len() % 4 == 0,
        bytes.len() % 3 == 0 ==> encoded(bytes).len() == 4 * (bytes.len() / 3),
        bytes.len() % 3 != 0 ==> encoded(bytes).len() == 4 * (bytes.len() / 3) + 4,
{
}

/// The encoding ends in no padding character where the number of bytes is
/// a multiple of three, in two where it leaves a remainder of one, in one
/// where it leaves a remainder of two; and no padding character stands
/// anywhere else.
pub proof fn lemma_padding(bytes: Seq<u8>)
    ensures
        padding_len(bytes.len()) <= encoded(bytes).len(),
        forall|k: int|
            0 <= k < encoded(bytes).len() ==> (#[trigger] encoded(bytes)[k] == PAD <==> k
                >= encoded(bytes).len() - padding_len(bytes.len())),
{
    let text = encoded(bytes);
    assert forall|k: int| 0 <= k < text.len() implies (#[trigger] text[k] == PAD <==> k
        >= text.len() - padding_len(bytes.len())) by {
        lemma_sextet_range(triple(bytes, k / 4), k % 4);
        lemma_value_of_symbol(sextet(triple(bytes, k / 4), k % 4));
    }
}

/// Packs three bytes into a 24-bit accumulator, the first byte on top.
fn pack_triple(b1: u8, b2: u8, b3: u8) -> (t: u32)
    ensures
        t == b1 * 0x1_0000 + b2 * 0x100 + b3,
{
    let t: u32 = ((b1 as u32) << 16) | ((b2 as u32) << 8) | (b3 as u32);
    assert(t == b1 * 0x1_0000 + b2 * 0x100 + b3) by (bit_vector)
        requires
            t == ((b1 as u32) << 16) | ((b2 as u32) << 8) | (b3 as u32),
    ;
    t
}

/// The symbol of slice `j` of a 24-bit accumulator.
fn slice_symbol(t: u32, j: u32) -> (c: char)
    requires
        j < 4,
    ensures
        c == symbol(sextet(t as int, j as int)),
{
    let shift: u32 = 18 - 6 * j;
    let v: u32 = (t >> shift) & 0x3F;
    assert(v < 64 && (j == 0 ==> v == (t / 0x4_0000) % 64) && (j == 1 ==> v == (t / 0x1000) % 64)
        && (j == 2 ==> v == (t / 0x40) % 64) && (j == 3 ==> v == t % 64)) by (bit_vector)
        requires
            j < 4,
            shift == 18 - 6 * j,
            v == (t >> shift) & 0x3F,
    ;
    encode_char(v)
}

/// Encodes `input` as text. Every byte sequence has an encoding, the empty
/// one the empty text. The text is `4 * ceil(n / 3)` characters long for
/// `n` bytes, and padding stands at its end and nowhere else.
pub fn encode_base64(input: &[u8]) -> (output: String)
    ensures
        output@ == encoded(input@),
        output@.len() == 4 * ((input@.len() + 2) / 3),
        forall|k: int|
            0 <= k < output@.len() ==> (#[trigger] output@[k] == PAD <==> k >= output@.len()
                - padding_len(input@.len())),
{
    let mut output = String::new();
    let n: usize = input.len();
    let mut i: usize = 0;
    while i < n
        invariant
            n == input@.len(),
            i <= n,
            i % 3 == 0 || i == n,
            output@.len() == encoded_len(i as nat),
            forall|k: int| 0 <= k < output@.len() ==> output@[k] == encoded_char(input@, k),
        decreases n - i,
    {
        let ghost g = i as int / 3;
        let ghost done = output@;
        assert(i == 3 * g && done.len() == 4 * g);
        let b1: u8 = input[i];
        let b2: u8 = if n - i > 1 {
            input[i + 1]
        } else {
            0
        };
        let b3: u8 = if n - i > 2 {
            input[i + 2]
        } else {
            0
        };
        let t: u32 = pack_triple(b1, b2, b3);
        assert(t == triple(input@, g));
        output.push(slice_symbol(t, 0));
        output.push(slice_symbol(t, 1));
        if n - i > 1 {
            output.push(slice_symbol(t, 2));
        } else {
            output.push(PAD);
        }
        if n - i > 2 {
            output.push(slice_symbol(t, 3));
            i += 3;
        } else {
            output.push(PAD);
            i = n;
        }
        assert(output@.len() == 4 * (g + 1));
        assert forall|k: int| 0 <= k < output@.len() implies output@[k] == encoded_char(
            input@,
            k,
        ) by {
            if k < done.len() {
                assert(output@[k] == done[k]);
            } else {
                assert(k / 4 == g && k % 4 == k - 4 * g);
            }
        }
    }
    proof {
        assert(output@ =~= encoded(input@));
        lemma_padding(input@);
    }
    output
}

} // verus!
