//! The 64-symbol alphabet: the map from six-bit values to characters and its
//! inverse.

use vstd::prelude::*;

verus! {

/// The padding character. It is reserved: no six-bit value maps to it.
pub const PAD: char = '=';

/// The character that stands for the six-bit value `v`:
/// `A`-`Z` for 0-25, `a`-`z` for 26-51, `0`-`9` for 52-61, then `+` and `/`.
pub open spec fn symbol(v: int) -> char {
    if v < 26 {
        ('A' as int + v) as char
    } else if v < 52 {
        ('a' as int + (v - 26)) as char
    } else if v < 62 {
        ('0' as int + (v - 52)) as char
    } else if v == 62 {
        '+'
    } else {
        '/'
    }
}

/// The six-bit value that `c` stands for, or `None` where `c` is no symbol
/// of the alphabet.
pub open spec fn symbol_value(c: char) -> Option<int> {
    if 'A' <= c <= 'Z' {
        Some(c as int - 'A' as int)
    } else if 'a' <= c <= 'z' {
        Some(c as int - 'a' as int + 26)
    } else if '0' <= c <= '9' {
        Some(c as int - '0' as int + 52)
    } else if c == '+' {
        Some(62)
    } else if c == '/' {
        Some(63)
    } else {
        None
    }
}

/// The alphabet as an ordered sequence, indexed by six-bit value.
pub open spec fn alphabet() -> Seq<char> {
    Seq::new(64, |v: int| symbol(v))
}

/// Reading a symbol back gives the value it was made from, and no symbol is
/// the padding character.
pub proof fn lemma_value_of_symbol(v: int)
    requires
        0 <= v < 64,
    ensures
        symbol_value(symbol(v)) == Some(v),
        symbol(v) != PAD,
{
}

/// Every character that has a value is the symbol of that value, and the
/// value fits in six bits. The padding character has none.
pub proof fn lemma_symbol_of_value(c: char)
    ensures
        symbol_value(c) matches Some(v) ==> 0 <= v < 64 && symbol(v) == c,
        symbol_value(PAD) is None,
{
}

/// The 64 symbols are pairwise distinct.
pub proof fn lemma_alphabet_distinct(v: int, w: int)
    requires
        0 <= v < 64,
        0 <= w < 64,
        v != w,
    ensures
        alphabet().len() == 64,
        alphabet()[v] != alphabet()[w],
        alphabet()[v] != PAD,
{
}

/// Looks up the symbol of a six-bit value.
pub fn encode_char(v: u32) -> (c: char)
    requires
        v < 64,
    ensures
        c == symbol(v as int),
{
    let b: u8 = v as u8;
    if b < 26 {
        ('A' as u8 + b) as char
    } else if b < 52 {
        ('a' as u8 + (b - 26)) as char
    } else if b < 62 {
        ('0' as u8 + (b - 52)) as char
    } else if b == 62 {
        '+'
    } else {
        '/'
    }
}

/// Looks up the six-bit value of a character; `None` for every character
/// outside the alphabet, the padding character among them.
pub fn decode_char(c: char) -> (r: Option<u32>)
    ensures
        r == match symbol_value(c) {
            Some(v) => Some(v as u32),
            None => None,
        },
        r matches Some(v) ==> v < 64,
{
    if 'A' <= c && c <= 'Z' {
        Some(c as u32 - 'A' as u32)
    } else if 'a' <= c && c <= 'z' {
        Some(c as u32 - 'a' as u32 + 26)
    } else if '0' <= c && c <= '9' {
        Some(c as u32 - '0' as u32 + 52)
    } else if c == '+' {
        Some(62)
    } else if c == '/' {
        Some(63)
    } else {
        None
    }
}

} // verus!
