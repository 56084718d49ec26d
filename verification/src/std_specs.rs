//! Contracts for the items of the standard library that this crate calls
//! and that vstd leaves without one. None of them is proved here: each says
//! what the standard library documents of the item, or nothing at all.

use std::string::FromUtf8Error;
use std::time::{Duration, SystemTime, SystemTimeError};
use vstd::prelude::*;
use vstd::utf8::{decode_utf8, valid_utf8};

verus! {

/// `String::push`: appends one character to the end of the string and
/// leaves what was there unchanged.
pub assume_specification[ String::push ](s: &mut String, c: char)
    ensures
        final(s)@ == old(s)@.push(c),
;

/// `std::string::FromUtf8Error`, the error of `String::from_utf8`. Nothing
/// is read from it.
#[verifier::external_type_specification]
#[verifier::external_body]
pub struct ExFromUtf8Error(FromUtf8Error);

/// `String::from_utf8`: succeeds on the byte sequences that are valid UTF-8
/// and on no others, and the string it then returns holds the characters
/// that the bytes encode.
pub assume_specification[ String::from_utf8 ](vec: Vec<u8>) -> (r: Result<String, FromUtf8Error>)
    ensures
        r is Ok <==> valid_utf8(vec@),
        r matches Ok(s) ==> s@ == decode_utf8(vec@),
;

/// `std::time::SystemTime`, a reading of the system clock. It is only
/// handed on to `duration_since`.
#[verifier::external_type_specification]
#[verifier::external_body]
pub struct ExSystemTime(SystemTime);

/// `std::time::SystemTimeError`, the error of `duration_since`. Nothing is
/// read from it.
#[verifier::external_type_specification]
#[verifier::external_body]
pub struct ExSystemTimeError(SystemTimeError);

/// `SystemTime::now`: reads the system clock. Nothing is claimed of the
/// reading.
pub assume_specification[ SystemTime::now ]() -> SystemTime;

/// `SystemTime::duration_since`: the time from `earlier` to `this`, or an
/// error where `earlier` is the later of the two. Nothing is claimed of the
/// result.
pub assume_specification[ SystemTime::duration_since ](
    this: &SystemTime,
    earlier: SystemTime,
) -> Result<Duration, SystemTimeError>;

/// `Duration::as_secs`: the whole seconds of a duration. Nothing is claimed
/// of the result.
pub assume_specification[ Duration::as_secs ](this: &Duration) -> u64;

/// The constant `SystemTime::UNIX_EPOCH`, the start of 1970 in UTC.
#[verifier::external_body]
pub(crate) fn unix_epoch() -> SystemTime {
    SystemTime::UNIX_EPOCH
}

} // verus!
