use memcloud::bytes::append_bytes;
use memcloud::bytes::put_u128;
use memcloud::bytes::put_u16;
use memcloud::bytes::put_u32;
use memcloud::bytes::put_u64;
use memcloud::bytes::same_bytes;
use memcloud::framing::decode_frame;
use memcloud::framing::encode_frame;
use memcloud::framing::frame_length;
use memcloud::framing::Framed;
use memcloud::net::decode;
use memcloud::net::encode;
use memcloud::net::Message;
use memcloud::net::WireError;
use memcloud::string_id::decimal_string;
use memcloud::string_id::deserialize;
use memcloud::string_id::serialize;
use memcloud::string_id::IdError;
use memcloud::wire::Reader;

#[test]
fn numbers_are_written_big_endian() {
    let mut out = Vec::new();
    put_u16(&mut out, 0x0102);
    put_u32(&mut out, 0x0304_0506);
    put_u64(&mut out, 0x0708_090a_0b0c_0d0e);
    put_u128(&mut out, 0x1112_1314_1516_1718_191a_1b1c_1d1e_1f20);
    assert_eq!(out[..2], [1, 2]);
    assert_eq!(out[2..6], [3, 4, 5, 6]);
    assert_eq!(out[6..14], [7, 8, 9, 10, 11, 12, 13, 14]);
    assert_eq!(out[14..], 0x1112_1314_1516_1718_191a_1b1c_1d1e_1f20u128.to_be_bytes());
}

#[test]
fn numbers_are_read_back() {
    let mut out = Vec::new();
    put_u16(&mut out, 65535);
    put_u64(&mut out, u64::MAX - 5);
    put_u128(&mut out, u128::MAX - 7);
    out.push(9);
    let mut rd = Reader::new(&out);
    assert_eq!(rd.u16(), Some(65535));
    assert_eq!(rd.u64(), Some(u64::MAX - 5));
    assert_eq!(rd.u128(), Some(u128::MAX - 7));
    assert!(!rd.at_end());
    assert_eq!(rd.u8(), Some(9));
    assert!(rd.at_end());
    assert_eq!(rd.u8(), None);
}

#[test]
fn reader_refuses_what_is_cut_short() {
    let bytes = [0u8, 0, 0, 0, 0, 0, 0, 5, 1, 2, 3];
    let mut rd = Reader::new(&bytes);
    assert_eq!(rd.bytes(), None);
    let whole = [0u8, 0, 0, 0, 0, 0, 0, 3, 1, 2, 3];
    let mut rd = Reader::new(&whole);
    assert_eq!(rd.bytes(), Some(vec![1, 2, 3]));
    let not_utf8 = [0u8, 0, 0, 0, 0, 0, 0, 2, 0xff, 0xfe];
    let mut rd = Reader::new(&not_utf8);
    assert_eq!(rd.text(), None);
    let bad_flag = [2u8];
    let mut rd = Reader::new(&bad_flag);
    assert_eq!(rd.opt_bytes(), None);
}

#[test]
fn bytes_are_appended_and_compared() {
    let mut v = vec![1u8, 2];
    append_bytes(&mut v, &[3, 4]);
    assert_eq!(v, vec![1, 2, 3, 4]);
    assert!(same_bytes(&v, &[1, 2, 3, 4]));
    assert!(!same_bytes(&v, &[1, 2, 3]));
    assert!(!same_bytes(&v, &[1, 2, 3, 5]));
}

#[test]
fn frame_is_length_then_payload() {
    let frame = encode_frame(b"hello").unwrap();
    assert_eq!(frame, vec![0, 0, 0, 5, b'h', b'e', b'l', b'l', b'o']);
    assert_eq!(frame_length(&[0, 0, 1, 2]), 258);
    assert_eq!(encode_frame(b"").unwrap(), vec![0, 0, 0, 0]);
}

#[test]
fn frame_is_found_at_the_front_of_a_buffer() {
    let mut buf = encode_frame(b"abc").unwrap();
    buf.extend_from_slice(&encode_frame(b"defg").unwrap());
    match decode_frame(&buf) {
        Framed::Frame { payload, consumed } => {
            assert_eq!(payload, b"abc".to_vec());
            assert_eq!(consumed, 7);
            match decode_frame(&buf[consumed..]) {
                Framed::Frame { payload, consumed } => {
                    assert_eq!(payload, b"defg".to_vec());
                    assert_eq!(consumed, 8);
                }
                Framed::Incomplete => panic!("second frame is whole"),
            }
        }
        Framed::Incomplete => panic!("first frame is whole"),
    }
    assert!(matches!(decode_frame(&buf[..6]), Framed::Incomplete));
    assert!(matches!(decode_frame(&buf[..3]), Framed::Incomplete));
    assert!(matches!(decode_frame(&[]), Framed::Incomplete));
}

fn roundtrip(m: Message) -> Message {
    decode(&encode(&m)).unwrap()
}

#[test]
fn every_message_survives_the_wire() {
    match roundtrip(Message::Hello {
        version: 2,
        node_id: 77,
        name: "näme".to_string(),
        total_memory: 1 << 40,
        used_memory: 3,
    }) {
        Message::Hello { version, node_id, name, total_memory, used_memory } => {
            assert_eq!((version, node_id, total_memory, used_memory), (2, 77, 1 << 40, 3));
            assert_eq!(name, "näme");
        }
        other => panic!("unexpected: {:?}", other),
    }
    match roundtrip(Message::PutBlock { id: u64::MAX, data: vec![1, 2, 3] }) {
        Message::PutBlock { id, data } => assert_eq!((id, data), (u64::MAX, vec![1, 2, 3])),
        other => panic!("unexpected: {:?}", other),
    }
    match roundtrip(Message::GetBlock { id: 9 }) {
        Message::GetBlock { id } => assert_eq!(id, 9),
        other => panic!("unexpected: {:?}", other),
    }
    match roundtrip(Message::BlockData { id: 9, data: Some(vec![]) }) {
        Message::BlockData { id, data } => assert_eq!((id, data), (9, Some(vec![]))),
        other => panic!("unexpected: {:?}", other),
    }
    match roundtrip(Message::BlockData { id: 9, data: None }) {
        Message::BlockData { id, data } => assert_eq!((id, data), (9, None)),
        other => panic!("unexpected: {:?}", other),
    }
    match roundtrip(Message::GetKey { key: "k".to_string() }) {
        Message::GetKey { key } => assert_eq!(key, "k"),
        other => panic!("unexpected: {:?}", other),
    }
    match roundtrip(Message::KeyFound { key: "k".to_string(), data: Some(vec![7]) }) {
        Message::KeyFound { key, data } => assert_eq!((key.as_str(), data), ("k", Some(vec![7]))),
        other => panic!("unexpected: {:?}", other),
    }
    match roundtrip(Message::PutKey { key: "greeting".to_string(), data: b"hi".to_vec() }) {
        Message::PutKey { key, data } => assert_eq!(
            (key.as_str(), data),
            ("greeting", b"hi".to_vec()),
        ),
        other => panic!("unexpected: {:?}", other),
    }
    match roundtrip(Message::KeyStored { key: "".to_string(), id: 1 }) {
        Message::KeyStored { key, id } => assert_eq!((key.as_str(), id), ("", 1)),
        other => panic!("unexpected: {:?}", other),
    }
    match roundtrip(Message::UpdateQuota { quota: 1024 }) {
        Message::UpdateQuota { quota } => assert_eq!(quota, 1024),
        other => panic!("unexpected: {:?}", other),
    }
    assert!(matches!(roundtrip(Message::Ack), Message::Ack));
    assert!(matches!(roundtrip(Message::Flush), Message::Flush));
    assert!(matches!(roundtrip(Message::Bye), Message::Bye));
}

#[test]
fn message_bytes_are_tag_then_fields() {
    assert_eq!(encode(&Message::GetBlock { id: 258 }), vec![2, 0, 0, 0, 0, 0, 0, 1, 2]);
    assert_eq!(
        encode(&Message::PutKey { key: "ab".to_string(), data: vec![9] }),
        vec![6, 0, 0, 0, 0, 0, 0, 0, 2, b'a', b'b', 0, 0, 0, 0, 0, 0, 0, 1, 9]
    );
    assert_eq!(
        encode(&Message::BlockData { id: 1, data: None }),
        vec![3, 0, 0, 0, 0, 0, 0, 0, 1, 0],
    );
    assert_eq!(encode(&Message::Bye), vec![11]);
}

#[test]
fn unknown_tags_and_broken_messages_are_told_apart() {
    assert!(matches!(decode(&[200, 1, 2]), Err(WireError::UnknownTag(200))));
    assert!(matches!(decode(&[12]), Err(WireError::UnknownTag(12))));
    assert!(matches!(decode(&[]), Err(WireError::Malformed)));
    assert!(matches!(decode(&[2, 0, 0]), Err(WireError::Malformed)));
    assert!(matches!(decode(&[11, 0]), Err(WireError::Malformed)));
    assert!(matches!(decode(&[4, 0, 0, 0, 0, 0, 0, 0, 1, 0xff]), Err(WireError::Malformed)));
}

#[test]
fn block_ids_travel_as_decimal_text() {
    assert_eq!(serialize(&0), "0");
    assert_eq!(serialize(&9007199254740993), "9007199254740993");
    assert_eq!(serialize(&u64::MAX), "18446744073709551615");
    assert_eq!(decimal_string(1000), "1000");
    assert_eq!(deserialize("18446744073709551615"), Ok(u64::MAX));
    assert_eq!(deserialize("+42"), Ok(42));
    assert_eq!(deserialize("007"), Ok(7));
    for id in [0u64, 1, 10, 99, 100, 1 << 53, (1 << 53) + 1, u64::MAX - 1, u64::MAX] {
        assert_eq!(deserialize(&serialize(&id)), Ok(id));
    }
}

#[test]
fn text_that_is_no_block_id_is_refused() {
    assert_eq!(deserialize(""), Err(IdError::Empty));
    assert_eq!(deserialize("+"), Err(IdError::Empty));
    assert_eq!(deserialize("12a"), Err(IdError::InvalidDigit));
    assert_eq!(deserialize("-1"), Err(IdError::InvalidDigit));
    assert_eq!(deserialize("1.5e3"), Err(IdError::InvalidDigit));
    assert_eq!(deserialize("18446744073709551616"), Err(IdError::Overflow));
    assert_eq!(deserialize("99999999999999999999999"), Err(IdError::Overflow));
}
