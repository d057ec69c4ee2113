use vanth::ty::parse_ty;
use vanth::value::{HashedValue, Value};

#[test]
fn hashed_value_digests_the_record_shape() {
    let value = Value::new(parse_ty("a::b"), vec![1, 2]);
    let mut expected = Vec::new();
    expected.extend(2u128.to_be_bytes());
    expected.extend(1u128.to_be_bytes());
    expected.extend(2u128.to_be_bytes());
    expected.extend(b"ab");
    expected.extend(2u128.to_be_bytes());
    expected.extend([1, 2]);
    assert_eq!(vanth::hashing::encode(&value.canonical()).unwrap(), expected);
    let hashed = HashedValue::from(value);
    assert_eq!(hashed.content_hash().hash, *blake3::hash(&expected).as_bytes());
}
