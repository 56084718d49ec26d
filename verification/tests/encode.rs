use base64_codec::{encode_base64, encode_char};

#[test]
fn encode_empty_is_empty() {
    assert_eq!(encode_base64(b""), "");
}

#[test]
fn encode_one_byte_pads_twice() {
    assert_eq!(encode_base64(b"M"), "TQ==");
}

#[test]
fn encode_two_bytes_pads_once() {
    assert_eq!(encode_base64(b"Ma"), "TWE=");
}

#[test]
fn encode_three_bytes_has_no_padding() {
    assert_eq!(encode_base64(b"Man"), "TWFu");
}

#[test]
fn encode_longer_text() {
    assert_eq!(encode_base64(b"Man!"), "TWFuIQ==");
    assert_eq!(encode_base64(b"hello world"), "aGVsbG8gd29ybGQ=");
    assert_eq!(
        encode_base64(b"Many hands make light work."),
        "TWFueSBoYW5kcyBtYWtlIGxpZ2h0IHdvcmsu"
    );
}

#[test]
fn encode_is_byte_oriented() {
    assert_eq!(encode_base64(&[0xff]), "/w==");
    assert_eq!(encode_base64(&[0xff, 0xfe]), "//4=");
    assert_eq!(encode_base64(&[0xff, 0xfe, 0xfd]), "//79");
    assert_eq!(encode_base64(&[0x00]), "AA==");
    assert_eq!(encode_base64(&[0x00, 0x00, 0x00]), "AAAA");
    assert_eq!(encode_base64(&[0xfb, 0xff, 0xbf]), "+/+/");
}

#[test]
fn encode_walks_the_alphabet_in_order() {
    let mut bytes: Vec<u8> = Vec::new();
    let mut v: u32 = 0;
    while v < 64 {
        let t: u32 = (v << 18) | ((v + 1) << 12) | ((v + 2) << 6) | (v + 3);
        bytes.push((t >> 16) as u8);
        bytes.push((t >> 8) as u8);
        bytes.push(t as u8);
        v += 4;
    }
    assert_eq!(
        encode_base64(&bytes),
        "ABCDEFGHIJKLMNOPQRSTUVWXYZabcdefghijklmnopqrstuvwxyz0123456789+/"
    );
}

#[test]
fn encode_char_gives_each_symbol() {
    let alphabet: Vec<char> =
        "ABCDEFGHIJKLMNOPQRSTUVWXYZabcdefghijklmnopqrstuvwxyz0123456789+/".chars().collect();
    assert_eq!(alphabet.len(), 64);
    for v in 0..64u32 {
        assert_eq!(encode_char(v), alphabet[v as usize]);
    }
}

#[test]
fn encode_length_is_four_per_started_group() {
    for n in 0..200usize {
        let bytes = vec![0x5au8; n];
        let expected = 4 * ((n + 2) / 3);
        assert_eq!(encode_base64(&bytes).chars().count(), expected);
    }
    assert_eq!(encode_base64(&[1, 2, 3, 4]).len(), 8);
    assert_eq!(encode_base64(&[1, 2, 3, 4, 5, 6]).len(), 8);
    assert_eq!(encode_base64(&[1, 2, 3, 4, 5, 6, 7]).len(), 12);
}

#[test]
fn encode_padding_follows_the_remainder() {
    for n in 0..100usize {
        let bytes: Vec<u8> = (0..n).map(|i| (i * 37 + 11) as u8).collect();
        let text = encode_base64(&bytes);
        let pads = text.chars().filter(|c| *c == '=').count();
        match n % 3 {
            0 => {
                assert_eq!(pads, 0);
            }
            1 => {
                assert_eq!(pads, 2);
                assert!(text.ends_with("=="));
            }
            _ => {
                assert_eq!(pads, 1);
                assert!(text.ends_with('='));
                assert!(!text.ends_with("=="));
            }
        }
    }
}
