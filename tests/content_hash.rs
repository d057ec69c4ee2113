use vanth::content_hash::{parse_hash, ParseHashError};
use vanth::ContentHash;

#[test]
fn hex_is_lowercase_two_digits_per_byte() {
    let mut hash = [0u8; 32];
    hash[0] = 0xab;
    hash[1] = 0x01;
    hash[31] = 0xf0;
    let h = ContentHash { hash };
    let text = h.hex();
    assert_eq!(text.len(), 64);
    assert!(text.starts_with("ab01"));
    assert!(text.ends_with("f0"));
    assert_eq!(&text[4..62], "0".repeat(58));
}

#[test]
fn parses_hex_in_either_case() {
    let text = "AB01".to_string() + &"0".repeat(58) + "f0";
    let h = parse_hash(&text).unwrap();
    assert_eq!(h.hash[0], 0xab);
    assert_eq!(h.hash[1], 0x01);
    assert_eq!(h.hash[31], 0xf0);
    assert_eq!(parse_hash(&h.hex()).unwrap(), h);
}

#[test]
fn rejects_wrong_length_and_bad_digits() {
    assert_eq!(parse_hash("abc"), Err(ParseHashError::WrongLength));
    assert_eq!(parse_hash(&"0".repeat(65)), Err(ParseHashError::WrongLength));
    let bad = "0".repeat(10) + "g" + &"0".repeat(53);
    assert_eq!(parse_hash(&bad), Err(ParseHashError::InvalidDigit(10)));
    let plus = "+f".to_string() + &"0".repeat(62);
    assert_eq!(parse_hash(&plus), Err(ParseHashError::InvalidDigit(0)));
}
