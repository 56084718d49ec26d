//! A bracketed timestamp: the whole seconds since the Unix epoch, in
//! decimal, between `[` and `]`.

use crate::std_specs::unix_epoch;
use std::time::SystemTime;
use vstd::prelude::*;

verus! {

/// The decimal digit of `d`.
pub open spec fn digit(d: nat) -> char {
    ('0' as nat + d) as char
}

/// The decimal numeral of `n`, without leading zeros.
pub open spec fn decimal(n: nat) -> Seq<char>
    decreases n,
{
    if n < 10 {
        seq![digit(n)]
    } else {
        decimal(n / 10).push(digit(n % 10))
    }
}

/// The timestamp for `secs` seconds since the epoch.
pub open spec fn timestamp_text(secs: nat) -> Seq<char> {
    seq!['['] + decimal(secs) + seq![']']
}

/// Appends the decimal numeral of `n`.
fn push_decimal(s: &mut String, n: u64)
    ensures
        final(s)@ == old(s)@ + decimal(n as nat),
    decreases n,
{
    if n >= 10 {
        push_decimal(s, n / 10);
    }
    let d: u8 = (n % 10) as u8;
    s.push(('0' as u8 + d) as char);
}

/// The timestamp for `secs` seconds since the epoch.
pub fn format_timestamp(secs: u64) -> (s: String)
    ensures
        s@ == timestamp_text(secs as nat),
{
    let mut s = String::new();
    s.push('[');
    push_decimal(&mut s, secs);
    s.push(']');
    s
}

/// The timestamp for the present reading of the system clock, or `None`
/// where the clock reads a time before the epoch.
pub fn get_timestamp() -> (r: Option<String>)
    ensures
        r matches Some(s) ==> exists|secs: u64| s@ == timestamp_text(secs as nat),
{
    let now = SystemTime::now();
    match now.duration_since(unix_epoch()) {
        Ok(elapsed) => Some(format_timestamp(elapsed.as_secs())),
        Err(_) => None,
    }
}

} // verus!
