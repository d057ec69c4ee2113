

#[test]
fn test_hash_to_string() {
    let input = [0u8; 24];
    let hash = vanth::util::Hash::from_bytes(input);
    let result = hash.to_string();

    assert_eq!(result.len(), 34);

    // String should only contain A-Z and a-z
    assert!(result.chars().all(|c| c.is_ascii_alphabetic()));

    // With all zero bytes, should start with 'AAAAAA'
    assert_eq!(&result[0..6], "AAAAAA");
}

#[test]
fn base52_digits_most_significant_first() {
    let mut one = [0u8; 24];
    one[0] = 1;
    assert_eq!(vanth::util::Hash::from_bytes(one).to_string(), "A".repeat(33) + "B");
    let mut fifty_two = [0u8; 24];
    fifty_two[0] = 52;
    assert_eq!(vanth::util::Hash::from_bytes(fifty_two).to_string(), "A".repeat(32) + "BA");
    assert_eq!(vanth::util::Hash::from_bytes([0xff; 24]).to_string(), "OoankzNKvXOXThOXZzeDlRaRcSkQMNFjin");
    let mut counting = [0u8; 24];
    for (i, b) in counting.iter_mut().enumerate() {
        *b = i as u8;
    }
    assert_eq!(vanth::util::Hash::from_bytes(counting).to_string(), "BRPtMXpBtKluUaVYOBrvTxMtcUoTfwHZoQ");
}

#[test]
fn truncated_text_is_a_prefix() {
    let hash = vanth::util::Hash::from_bytes([0xff; 24]);
    assert_eq!(hash.to_string_truncated(6), "Ooankz");
    assert_eq!(hash.to_string_truncated(0), "");
    assert_eq!(hash.to_string_truncated(34), hash.to_string());
}
