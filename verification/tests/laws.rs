use base64_codec::{decode_base64, decode_char, encode_base64, encode_char};

fn sample(n: usize, seed: u32) -> Vec<u8> {
    let mut state: u32 = seed;
    let mut bytes = Vec::with_capacity(n);
    for _ in 0..n {
        state = state.wrapping_mul(1664525).wrapping_add(1013904223);
        bytes.push((state >> 24) as u8);
    }
    bytes
}

#[test]
fn round_trip_of_every_short_length() {
    for n in 0..260usize {
        let bytes = sample(n, n as u32 + 1);
        assert_eq!(decode_base64(&encode_base64(&bytes)), Ok(bytes));
    }
}

#[test]
fn round_trip_of_every_byte_value() {
    for b in 0..=255u8 {
        assert_eq!(decode_base64(&encode_base64(&[b])), Ok(vec![b]));
        assert_eq!(decode_base64(&encode_base64(&[b, b])), Ok(vec![b, b]));
        assert_eq!(decode_base64(&encode_base64(&[0, b, 255])), Ok(vec![0, b, 255]));
    }
    let all: Vec<u8> = (0..=255u8).collect();
    assert_eq!(decode_base64(&encode_base64(&all)), Ok(all));
}

#[test]
fn round_trip_without_the_padding() {
    for n in 0..50usize {
        let bytes = sample(n, 7 * n as u32 + 3);
        let text = encode_base64(&bytes);
        let bare = text.trim_end_matches('=');
        assert_eq!(decode_base64(bare), Ok(bytes));
    }
}

#[test]
fn round_trip_of_a_large_buffer() {
    let bytes = sample(100_000, 42);
    let text = encode_base64(&bytes);
    assert_eq!(text.len(), 4 * ((100_000 + 2) / 3));
    assert_eq!(decode_base64(&text), Ok(bytes));
}

#[test]
fn symbols_and_values_are_inverse() {
    for v in 0..64u32 {
        assert_eq!(decode_char(encode_char(v)), Some(v));
        assert_ne!(encode_char(v), '=');
    }
}
