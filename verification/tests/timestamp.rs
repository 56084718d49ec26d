use base64_codec::{format_timestamp, get_timestamp};
use std::time::{SystemTime, UNIX_EPOCH};

#[test]
fn format_timestamp_brackets_the_decimal_numeral() {
    assert_eq!(format_timestamp(0), "[0]");
    assert_eq!(format_timestamp(9), "[9]");
    assert_eq!(format_timestamp(10), "[10]");
    assert_eq!(format_timestamp(1700000000), "[1700000000]");
    assert_eq!(format_timestamp(1002003004005), "[1002003004005]");
    assert_eq!(format_timestamp(u64::MAX), "[18446744073709551615]");
}

#[test]
fn format_timestamp_agrees_with_display() {
    let mut n: u64 = 1;
    for _ in 0..64 {
        assert_eq!(format_timestamp(n), format!("[{}]", n));
        assert_eq!(format_timestamp(n - 1), format!("[{}]", n - 1));
        n = n.wrapping_mul(3).wrapping_add(7);
    }
}

#[test]
fn get_timestamp_reads_the_clock() {
    let before = SystemTime::now().duration_since(UNIX_EPOCH).unwrap().as_secs();
    let stamp = get_timestamp().unwrap();
    let after = SystemTime::now().duration_since(UNIX_EPOCH).unwrap().as_secs();
    assert!(stamp.starts_with('['));
    assert!(stamp.ends_with(']'));
    let secs: u64 = stamp[1..stamp.len() - 1].parse().unwrap();
    assert!(before <= secs);
    assert!(secs <= after);
    assert_eq!(stamp, format_timestamp(secs));
}
