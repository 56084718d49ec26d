//! A whole-buffer Base64 codec with the standard alphabet and `=` padding.
//!
//! [`encode_base64`] turns any byte sequence into text, [`decode_base64`]
//! turns text back into bytes or says why it cannot. What they return is
//! stated by the functions `encoded` and `decoded` over sequences, and
//! `laws` proves that the second undoes the first. `text` is the codec on
//! strings, and `timestamp` formats the time stamp of the tools' log lines.

pub mod alphabet;
pub mod decode;
pub mod encode;
pub mod laws;
pub mod std_specs;
pub mod text;
pub mod timestamp;

pub use alphabet::{decode_char, encode_char, PAD};
pub use decode::{decode_base64, DecodeError};
pub use encode::encode_base64;
pub use text::{decode_text, encode_text, TextError};
pub use timestamp::{format_timestamp, get_timestamp};
