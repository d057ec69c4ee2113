use vanth::entity::{EntityId, Id};

struct Marker;

#[test]
fn u64_round_trip_uses_the_first_eight_bytes() {
    let id: Id<Marker> = Id::from_u64(0x0102_0304_0506_0708);
    assert_eq!(&id.value[0..8], &[8, 7, 6, 5, 4, 3, 2, 1]);
    assert!(id.value[8..].iter().all(|b| *b == 0));
    assert_eq!(id.to_u64(), 0x0102_0304_0506_0708);
    let mut value = [0u8; 32];
    value[0] = 1;
    value[8] = 9;
    assert_eq!(Id::<Marker>::new(value).to_u64(), 1);
}

#[test]
fn u128_pair_round_trip() {
    let high = 0x1112_1314_1516_1718_191a_1b1c_1d1e_1f20u128;
    let low = 0x0102_0304_0506_0708_090a_0b0c_0d0e_0f10u128;
    let id: Id<Marker> = Id::from_u128_pair(high, low);
    assert_eq!(id.value[0], 0x10);
    assert_eq!(id.value[15], 0x01);
    assert_eq!(id.value[16], 0x20);
    assert_eq!(id.value[31], 0x11);
    assert_eq!(id.to_u128_pair(), (high, low));
    assert_eq!(Id::<Marker>::from_u128_pair(u128::MAX, 0).to_u128_pair(), (u128::MAX, 0));
}

#[test]
fn ids_compare_by_value() {
    let a: Id<Marker> = Id::from_u64(5);
    let b: Id<Marker> = Id::new(a.value);
    assert!(a == b);
    assert!(a != Id::from_u64(6));
}

#[test]
fn clock_ids_step_by_one() {
    let id: Id<Marker> = Id::from_clock(0x1ff);
    assert_eq!(id.value[0], 0xff);
    assert_eq!(id.value[1], 0x00);
    assert_eq!(id.value[31], 0x1e);
    let random: Id<Marker> = Id::random();
    for i in 1..32 {
        assert_eq!(random.value[i], random.value[0].wrapping_add(i as u8));
    }
}

#[test]
fn entity_id_is_the_hash_of_the_name() {
    let id = EntityId::from_name(&"player".to_string());
    assert_eq!(id.0, *blake3::hash(b"player").as_bytes());
}
