use git_starter_rust::codec::{compress, decompress, hash};
use git_starter_rust::decimal::{parse_number, push_decimal};
use git_starter_rust::error::GitObjectError;
use git_starter_rust::hex::{hash_to_path_str, hash_to_str, str_to_hash};
use git_starter_rust::parse::find;

#[test]
fn test_str_to_hash() {
    let s = String::from("341d422eca9785ce3f93590d66bda0a47facb5d9");
    let h = str_to_hash(s).unwrap();
    assert_eq!(h[0], 52);
    assert_eq!(h[1], 29);
    assert_eq!(h[2], 66);
    assert_eq!(h[3], 46);
    assert_eq!(h.len(), 20);
}

#[test]
fn hex_round_trip() {
    let bytes: Vec<u8> = (0u8..20).map(|i| i.wrapping_mul(37).wrapping_add(3)).collect();
    let text = hash_to_str(&bytes);
    assert_eq!(text.len(), 40);
    assert_eq!(str_to_hash(text).unwrap(), bytes);
    assert_eq!(hash_to_str(&[0x00, 0x0f, 0xa0, 0xff]), "000fa0ff");
    assert_eq!(hash_to_str(&[]), "");
}

#[test]
fn hex_accepts_upper_case() {
    let h = str_to_hash("341D422ECA9785CE3F93590D66BDA0A47FACB5D9".to_string()).unwrap();
    assert_eq!(hash_to_str(&h), "341d422eca9785ce3f93590d66bda0a47facb5d9");
}

#[test]
fn malformed_hex_is_parse_error() {
    let short = str_to_hash("341d".to_string());
    assert!(matches!(short, Err(GitObjectError::ParseError { .. })));
    let long = str_to_hash("341d422eca9785ce3f93590d66bda0a47facb5d900".to_string());
    assert!(matches!(long, Err(GitObjectError::ParseError { .. })));
    let bad = str_to_hash("341d422eca9785ce3f93590d66bda0a47facb5dg".to_string());
    assert!(matches!(bad, Err(GitObjectError::ParseError { .. })));
    assert!(matches!(short, Err(GitObjectError::ParseError { offset: 4, .. })));
    assert!(matches!(long, Err(GitObjectError::ParseError { offset: 40, .. })));
    assert!(matches!(bad, Err(GitObjectError::ParseError { offset: 39, .. })));
    let upper_bad = str_to_hash("341d422eca9785ce3f93590d66bda0a47facXb5d".to_string());
    assert!(matches!(upper_bad, Err(GitObjectError::ParseError { offset: 36, .. })));
    let wide = str_to_hash("\u{e9}41d422eca9785ce3f93590d66bda0a47facb5d9".to_string());
    assert!(matches!(wide, Err(GitObjectError::ParseError { offset: 0, .. })));
}

#[test]
fn storage_path_split() {
    assert_eq!(
        hash_to_path_str("341d422eca9785ce3f93590d66bda0a47facb5d9"),
        ".git/objects/34/1d422eca9785ce3f93590d66bda0a47facb5d9"
    );
}

#[test]
fn sha1_known_values() {
    assert_eq!(hash_to_str(&hash(b"")), "da39a3ee5e6b4b0d3255bfef95601890afd80709");
    assert_eq!(hash_to_str(&hash(b"abc")), "a9993e364706816aba3e25717850c26c9cd0d89d");
}

#[test]
fn compression_round_trip() {
    for data in [Vec::new(), b"a".to_vec(), vec![7u8; 10000], (0..=255u8).collect::<Vec<u8>>()] {
        let packed = compress(&data);
        assert_ne!(packed, data);
        assert_eq!(decompress(&packed).unwrap(), data);
    }
}

#[test]
fn decompress_rejects_garbage() {
    assert!(matches!(decompress(b"\x00\x01\x02garbage"), Err(GitObjectError::CorruptObjectError(_))));
}

#[test]
fn decimal_text() {
    let mut out = Vec::new();
    push_decimal(&mut out, 0);
    push_decimal(&mut out, 100644);
    push_decimal(&mut out, u64::MAX);
    assert_eq!(out, b"010064418446744073709551615".to_vec());
}

#[test]
fn number_reading() {
    let s = b"x40000 12 4294967295 4294967296";
    assert_eq!(parse_number(s, 1, 6, u32::MAX as u64), Some(40000));
    assert_eq!(parse_number(s, 7, 9, u32::MAX as u64), Some(12));
    assert_eq!(parse_number(s, 10, 20, u32::MAX as u64), Some(4294967295));
    assert_eq!(parse_number(s, 21, 31, u32::MAX as u64), None);
    assert_eq!(parse_number(s, 21, 31, u64::MAX), Some(4294967296));
    assert_eq!(parse_number(s, 0, 6, u64::MAX), None);
    assert_eq!(parse_number(s, 3, 3, u64::MAX), None);
}

#[test]
fn byte_search() {
    let s = b"ab ab\0";
    assert_eq!(find(s, b' ', 0), Some(2));
    assert_eq!(find(s, b' ', 3), None);
    assert_eq!(find(s, 0, 0), Some(5));
    assert_eq!(find(s, b'a', 6), None);
}
