use chacha20poly1305::aead::Aead;
use chacha20poly1305::KeyInit;
use memcloud::framing::decode_frame;
use memcloud::framing::Framed;
use memcloud::secure_stream::nonce_bytes;
use memcloud::secure_stream::SecureReader;
use memcloud::secure_stream::SecureWriter;
use memcloud::secure_stream::StreamError;
use memcloud::transcript::Transcript;

fn payload_of(frame: &[u8]) -> Vec<u8> {
    match decode_frame(frame) {
        Framed::Frame { payload, consumed } => {
            assert_eq!(consumed, frame.len());
            payload
        }
        Framed::Incomplete => panic!("a sent frame is whole"),
    }
}

#[test]
fn test_transcript_mix_changes_hash() {
    let mut t = Transcript::new("TestProto");
    let h1 = t.current_hash();

    t.mix("label", b"data");
    let h2 = t.current_hash();

    assert_ne!(h1, h2);
}

#[test]
fn test_transcript_consistency() {
    let mut t1 = Transcript::new("TestProto");
    t1.mix("label", b"data");

    let mut t2 = Transcript::new("TestProto");
    t2.mix("label", b"data");

    assert_eq!(t1.current_hash(), t2.current_hash());
}

#[test]
fn transcript_hash_is_blake3_of_everything_mixed_in() {
    let empty = Transcript::new("");
    assert_eq!(
        hex::encode(empty.current_hash()),
        "af1349b9f5f9a1a6a0404dea36dcc9499bcb25c9adc112b7cc9a93cae41f3262"
    );
    let mut t = Transcript::new("TestProto");
    t.mix("label", b"data");
    t.mix_key(&[7u8; 32]);
    let mut all = b"TestProtodata".to_vec();
    all.extend_from_slice(&[7u8; 32]);
    assert_eq!(t.current_hash(), *blake3::hash(&all).as_bytes());
    assert_ne!(t.current_hash().to_vec(), all);
}

#[test]
fn nonce_is_zeros_then_counter() {
    assert_eq!(nonce_bytes(0), [0u8; 12]);
    assert_eq!(nonce_bytes(1), [0, 0, 0, 0, 0, 0, 0, 0, 0, 0, 0, 1]);
    assert_eq!(nonce_bytes(0x0102_0304_0506_0708), [0, 0, 0, 0, 1, 2, 3, 4, 5, 6, 7, 8]);
}

#[test]
fn reader_sees_what_writer_sent_in_order() {
    let key = [42u8; 32];
    let mut writer = SecureWriter::new(&key);
    let mut reader = SecureReader::new(&key);
    let messages: Vec<Vec<u8>> = vec![
        b"first".to_vec(),
        vec![],
        vec![0u8; 100_000],
        b"last".to_vec(),
    ];
    let mut seen = Vec::new();
    for m in &messages {
        let frame = writer.send_frame(m).unwrap();
        assert_eq!(frame.len(), 4 + m.len() + 16);
        seen.push(reader.recv_frame(&payload_of(&frame)).unwrap());
    }
    assert_eq!(seen, messages);
}

#[test]
fn sealed_frame_is_chacha20poly1305_under_the_counter_nonce() {
    let key = [5u8; 32];
    let mut writer = SecureWriter::from_raw(&key);
    let _ = writer.send_frame(b"zero").unwrap();
    let frame = writer.send_frame(b"one").unwrap();
    let cipher = chacha20poly1305::ChaCha20Poly1305::new(chacha20poly1305::Key::from_slice(&key));
    let nonce = [0u8, 0, 0, 0, 0, 0, 0, 0, 0, 0, 0, 1];
    let expected = cipher.encrypt(
        chacha20poly1305::Nonce::from_slice(&nonce),
        b"one".as_ref(),
    ).unwrap();
    assert_eq!(payload_of(&frame), expected);
    assert_ne!(payload_of(&frame), b"one".to_vec());
}

#[test]
fn flipped_bit_fails_and_closes_the_stream() {
    let key = [1u8; 32];
    let mut writer = SecureWriter::new(&key);
    let mut reader = SecureReader::new(&key);
    let good = payload_of(&writer.send_frame(b"good").unwrap());
    assert_eq!(reader.recv_frame(&good).unwrap(), b"good".to_vec());
    let mut bad = payload_of(&writer.send_frame(b"tampered").unwrap());
    bad[3] ^= 0x01;
    assert_eq!(reader.recv_frame(&bad), Err(StreamError::DecryptionFailed));
    let next = payload_of(&writer.send_frame(b"after").unwrap());
    assert_eq!(reader.recv_frame(&next), Err(StreamError::Closed));
}

#[test]
fn frames_out_of_order_or_under_another_key_fail() {
    let key = [1u8; 32];
    let mut writer = SecureWriter::new(&key);
    let first = payload_of(&writer.send_frame(b"1").unwrap());
    let second = payload_of(&writer.send_frame(b"2").unwrap());
    let mut reader = SecureReader::new(&key);
    assert_eq!(reader.recv_frame(&second), Err(StreamError::DecryptionFailed));
    let mut other = SecureReader::new(&[2u8; 32]);
    assert_eq!(other.recv_frame(&first), Err(StreamError::DecryptionFailed));
    let mut short = SecureReader::new(&key);
    assert_eq!(short.recv_frame(&[1, 2, 3]), Err(StreamError::DecryptionFailed));
}
