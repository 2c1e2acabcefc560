use tikv_store::log_key::{LogKey, LOG_KEY_LEN};

fn key(account_id: u32, collection: u8, change_id: u64) -> LogKey {
    LogKey {
        account_id,
        collection,
        change_id,
    }
}

#[test]
fn serialize_is_big_endian() {
    let bytes = key(0x0102_0304, 0x05, 0x0607_0809_0a0b_0c0d).serialize();
    assert_eq!(bytes.len(), LOG_KEY_LEN);
    assert_eq!(
        bytes,
        vec![1, 2, 3, 4, 5, 6, 7, 8, 9, 10, 11, 12, 13]
    );
}

#[test]
fn range_bounds_encode_to_extremes() {
    assert_eq!(key(0, 0, 0).serialize(), vec![0u8; 13]);
    assert_eq!(key(u32::MAX, u8::MAX, u64::MAX).serialize(), vec![0xffu8; 13]);
}

#[test]
fn byte_order_matches_tuple_order() {
    let keys = [
        key(0, 0, 0),
        key(0, 0, 1),
        key(0, 0, 256),
        key(0, 1, 0),
        key(0, 255, u64::MAX),
        key(1, 0, 0),
        key(255, 0, 0),
        key(256, 0, 0),
        key(7, 3, 1 << 40),
        key(u32::MAX, u8::MAX, u64::MAX),
    ];
    for a in &keys {
        for b in &keys {
            let tuple = (a.account_id, a.collection, a.change_id)
                .cmp(&(b.account_id, b.collection, b.change_id));
            assert_eq!(a.serialize().cmp(&b.serialize()), tuple);
        }
    }
}

#[test]
fn deserialize_reads_big_endian_fields() {
    let bytes = [1u8, 2, 3, 4, 5, 6, 7, 8, 9, 10, 11, 12, 13];
    let k = LogKey::deserialize(&bytes).unwrap();
    assert_eq!(k.account_id, 0x0102_0304);
    assert_eq!(k.collection, 5);
    assert_eq!(k.change_id, 0x0607_0809_0a0b_0c0d);
}

#[test]
fn deserialize_round_trips() {
    for k in [key(0, 0, 0), key(42, 1, 7), key(u32::MAX, u8::MAX, u64::MAX)] {
        assert_eq!(LogKey::deserialize(&k.serialize()), Some(k));
    }
}

#[test]
fn deserialize_refuses_other_lengths() {
    assert_eq!(LogKey::deserialize(&[]), None);
    assert_eq!(LogKey::deserialize(&[0u8; 12]), None);
    assert_eq!(LogKey::deserialize(&[0u8; 14]), None);
}
