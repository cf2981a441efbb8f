use p2p_chat::record::MessageRecord;

fn sample() -> MessageRecord {
    MessageRecord { id: "1".to_string(), label: "hi".to_string(), created: 258, is_delete: false }
}

#[test]
fn serialize_gives_the_documented_layout() {
    let bytes = sample().serialize();
    let expected: Vec<u8> = vec![
        2, 1, 0, 0, 0, 0, 0, 0, // created = 258, little-endian
        0, // not a tombstone
        1, 0, 0, 0, 0, 0, 0, 0, // one byte of id
        b'1', b'h', b'i',
    ];
    assert_eq!(bytes, expected);
}

#[test]
fn serialize_marks_a_tombstone() {
    let mut r = sample();
    r.is_delete = true;
    assert_eq!(r.serialize()[8], 1);
}

#[test]
fn round_trip_of_a_record() {
    let r = sample();
    assert_eq!(MessageRecord::deserialize(&r.serialize()), Some(r));
}

#[test]
fn round_trip_of_a_tombstone_with_wide_characters() {
    let r = MessageRecord {
        id: "clé-β".to_string(),
        label: "grüße 🌍, 你好".to_string(),
        created: u64::MAX,
        is_delete: true,
    };
    assert_eq!(MessageRecord::deserialize(&r.serialize()), Some(r));
}

#[test]
fn round_trip_of_empty_texts() {
    let r = MessageRecord { id: String::new(), label: String::new(), created: 0, is_delete: false };
    let bytes = r.serialize();
    assert_eq!(bytes.len(), 17);
    assert_eq!(MessageRecord::deserialize(&bytes), Some(r));
}

#[test]
fn deserialize_refuses_a_short_header() {
    assert_eq!(MessageRecord::deserialize(&[]), None);
    assert_eq!(MessageRecord::deserialize(&[0u8; 16]), None);
}

#[test]
fn deserialize_refuses_an_unknown_flag() {
    let mut bytes = sample().serialize();
    bytes[8] = 2;
    assert_eq!(MessageRecord::deserialize(&bytes), None);
}

#[test]
fn deserialize_refuses_an_id_longer_than_the_rest() {
    let mut bytes = sample().serialize();
    bytes[9] = 4;
    assert_eq!(MessageRecord::deserialize(&bytes), None);
    bytes[9] = 1;
    bytes[16] = 255;
    assert_eq!(MessageRecord::deserialize(&bytes), None);
}

#[test]
fn deserialize_refuses_broken_utf8() {
    let mut bytes = sample().serialize();
    bytes[17] = 0xff;
    assert_eq!(MessageRecord::deserialize(&bytes), None);
    let mut bytes = sample().serialize();
    bytes[19] = 0xc3;
    assert_eq!(MessageRecord::deserialize(&bytes), None);
}

#[test]
fn deserialize_splits_id_and_label_at_the_given_length() {
    let mut bytes = sample().serialize();
    bytes[9] = 2;
    let r = MessageRecord::deserialize(&bytes).unwrap();
    assert_eq!(r.id, "1h");
    assert_eq!(r.label, "i");
}

#[test]
fn clone_keeps_every_field() {
    let r = sample();
    assert_eq!(r.clone(), r);
}
