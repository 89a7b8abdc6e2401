use maars::bytes::{i32_from_bits, i32_to_bits, i64_from_bits, i64_to_bits, u64_from_be_bytes, u64_to_be_bytes};
use maars::database::{DbError, Msg};
use maars::maa_sys::MessageType;
use maars::record::{decode_record, encode_record, HEADER_LEN};

#[test]
fn record_layout_is_header_then_body() {
    let record = encode_record(0x0102_0304_0506_0708, 0x0a0b_0c0d, b"{}");
    assert_eq!(
        record,
        vec![1, 2, 3, 4, 5, 6, 7, 8, 0x0a, 0x0b, 0x0c, 0x0d, b'{', b'}']
    );
}

#[test]
fn record_round_trips() {
    let body = b"{\"uuid\":\"device\"}".to_vec();
    let record = encode_record(1_700_000_000_123, 10001, &body);
    assert_eq!(record.len(), HEADER_LEN + body.len());
    assert_eq!(decode_record(&record), Some((1_700_000_000_123, 10001, body)));
}

#[test]
fn record_round_trips_at_the_edges() {
    for time in [i64::MIN, -1, 0, 1, i64::MAX] {
        for kind in [i32::MIN, -1, 0, 1, i32::MAX] {
            let record = encode_record(time, kind, &[]);
            assert_eq!(record.len(), 12);
            assert_eq!(decode_record(&record), Some((time, kind, vec![])));
        }
    }
}

#[test]
fn record_agrees_with_the_standard_encoding() {
    let record = encode_record(-2, -3, &[0xff]);
    let mut expected = (-2i64).to_be_bytes().to_vec();
    expected.extend_from_slice(&(-3i32).to_be_bytes());
    expected.push(0xff);
    assert_eq!(record, expected);
}

#[test]
fn record_without_a_header_is_refused() {
    assert_eq!(decode_record(&[]), None);
    assert_eq!(decode_record(&[0; 11]), None);
    assert_eq!(decode_record(&[0; 12]), Some((0, 0, vec![])));
}

#[test]
fn sequence_numbers_encode_big_endian() {
    assert_eq!(u64_to_be_bytes(1), vec![0, 0, 0, 0, 0, 0, 0, 1]);
    assert_eq!(u64_to_be_bytes(0x0102_0304_0506_0708), vec![1, 2, 3, 4, 5, 6, 7, 8]);
    assert_eq!(u64_to_be_bytes(u64::MAX), vec![0xff; 8]);
    assert_eq!(u64_from_be_bytes(&[9, 1, 2, 3, 4, 5, 6, 7, 8], 1), 0x0102_0304_0506_0708);
}

#[test]
fn key_order_is_append_order() {
    let ids = [0u64, 1, 255, 256, 65_535, 65_536, 1 << 40, u64::MAX - 1, u64::MAX];
    for pair in ids.windows(2) {
        assert!(u64_to_be_bytes(pair[0]) < u64_to_be_bytes(pair[1]));
    }
}

#[test]
fn signed_numbers_map_to_their_twos_complement() {
    assert_eq!(i64_to_bits(-1), u64::MAX);
    assert_eq!(i64_to_bits(i64::MIN), 1 << 63);
    assert_eq!(i64_from_bits(u64::MAX), -1);
    assert_eq!(i64_from_bits(5), 5);
    assert_eq!(i32_to_bits(-1), u32::MAX);
    assert_eq!(i32_to_bits(i32::MIN), 1 << 31);
    assert_eq!(i32_from_bits(u32::MAX), -1);
    assert_eq!(i32_from_bits(7), 7);
}

#[test]
fn message_round_trips() {
    let msg = Msg {
        time: 1_700_000_000_123,
        type_: MessageType::new(3),
        uuid: "device".to_string(),
        body: "{\"what\":\"Ünïcödé\"}".to_string(),
    };
    let back = Msg::from_ivec("device".to_string(), &msg.to_ivec()).unwrap();
    assert_eq!(back.time, msg.time);
    assert_eq!(back.type_, msg.type_);
    assert_eq!(back.uuid, msg.uuid);
    assert_eq!(back.body, msg.body);
}

#[test]
fn message_with_an_empty_body_round_trips() {
    let msg = Msg { time: 0, type_: MessageType::new(0), uuid: "d".to_string(), body: String::new() };
    let record = msg.to_ivec();
    assert_eq!(record.len(), 12);
    let back = Msg::from_ivec("d".to_string(), &record).unwrap();
    assert_eq!(back.body, "");
}

#[test]
fn short_record_is_not_long_enough() {
    let r = Msg::from_ivec("d".to_string(), &[1, 2, 3]);
    assert!(matches!(r, Err(DbError::IVecNotLongEnough)));
}

#[test]
fn record_with_a_body_that_is_no_text_is_invalid() {
    let mut record = encode_record(1, 2, &[]);
    record.extend_from_slice(&[0xff, 0xfe]);
    let r = Msg::from_ivec("d".to_string(), &record);
    assert!(matches!(r, Err(DbError::InvalidUtf8String(_))));
}

#[test]
fn message_type_bytes_are_big_endian() {
    assert_eq!(MessageType::new(0x0102_0304).to_be_bytes(), vec![1, 2, 3, 4]);
    assert_eq!(MessageType::new(-1).to_be_bytes(), vec![0xff; 4]);
}
