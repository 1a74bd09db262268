use chacha20poly1305::aead::Aead;
use chacha20poly1305::KeyInit;
use memcloud::auth::consent_required_frame;
use memcloud::auth::decode_auth_bytes;
use memcloud::auth::decode_message;
use memcloud::auth::derive_key;
use memcloud::auth::encode_auth_bytes;
use memcloud::auth::encode_message;
use memcloud::auth::exchange_public_key;
use memcloud::auth::handshake_initiator;
use memcloud::auth::handshake_responder;
use memcloud::auth::initiator_hello;
use memcloud::auth::open_auth;
use memcloud::auth::responder_hello;
use memcloud::auth::seal_auth;
use memcloud::auth::HandshakeAuth;
use memcloud::auth::HandshakeError;
use memcloud::auth::HandshakeHello;
use memcloud::auth::HandshakeMessage;
use memcloud::auth::Identity;
use memcloud::auth::InitiatorStep;
use memcloud::auth::ResponderStep;
use memcloud::auth::Session;
use memcloud::consent::ConsentDecision;
use memcloud::secure_stream::SecureReader;
use memcloud::secure_stream::SecureWriter;
use memcloud::trust::TrustedStore;

fn alice() -> Identity {
    Identity::from_secret([11u8; 32], 0xa11ce, "alice".to_string())
}

fn bob() -> Identity {
    Identity::from_secret([22u8; 32], 0xb0b, "bob".to_string())
}

fn hex_of(bytes: &[u8]) -> String {
    let mut s = String::new();
    for b in bytes {
        s.push_str(&format!("{:02x}", b));
    }
    s
}

fn run(
    decision: Option<ConsentDecision>,
    trust: &mut TrustedStore,
) -> (Result<Session, HandshakeError>, ResponderStep) {
    let (a0, hello_a) = initiator_hello(1 << 20, 1 << 30, [1u8; 32], [2u8; 32]);
    let (b0, hello_b) = responder_hello(&hello_a, 1 << 21, 1 << 31, [3u8; 32], [4u8; 32]).unwrap();
    let (a1, auth_a) = a0.on_hello(&alice(), &hello_b).unwrap();
    let b1 = b0.on_auth(&auth_a).unwrap();
    let mut a1 = a1;
    if b1.needs_consent(trust) {
        match a1.on_reply(&consent_required_frame()).unwrap() {
            InitiatorStep::WaitForConsent(s) => a1 = s,
            InitiatorStep::Done(_) => panic!("nothing is done while consent is pending"),
        }
    }
    let step = b1.finish(&bob(), decision, trust, 1000);
    let reply = match &step {
        ResponderStep::Accepted { frame, .. } => frame.clone(),
        ResponderStep::Refused { frame, .. } => frame.clone().unwrap(),
    };
    let session = match a1.on_reply(&reply) {
        Ok(InitiatorStep::Done(s)) => Ok(s),
        Ok(InitiatorStep::WaitForConsent(_)) => panic!("the answer is final"),
        Err(e) => Err(e),
    };
    (session, step)
}

#[test]
fn both_sides_hold_matching_keys() {
    let mut trust = TrustedStore::new();
    let (a, step) = run(Some(ConsentDecision::ApprovedOnce), &mut trust);
    let a = a.unwrap();
    let b = match step {
        ResponderStep::Accepted { session, .. } => session,
        ResponderStep::Refused { error, .. } => panic!("refused: {:?}", error),
    };
    assert_eq!(a.send_key, b.recv_key);
    assert_eq!(a.recv_key, b.send_key);
    assert_ne!(a.send_key, a.recv_key);
    assert_eq!((a.peer_id, a.peer_name.as_str()), (0xb0b, "bob"));
    assert_eq!((b.peer_id, b.peer_name.as_str()), (0xa11ce, "alice"));
    assert_eq!((a.peer_quota, a.peer_total_memory), (1 << 21, 1 << 31));
    assert_eq!((b.peer_quota, b.peer_total_memory), (1 << 20, 1 << 30));
    assert!(trust.list_trusted().is_empty());

    let mut w = SecureWriter::new(&a.send_key);
    let mut r = SecureReader::new(&b.recv_key);
    let frame = w.send_frame(b"over the session").unwrap();
    assert_eq!(r.recv_frame(&frame[4..]).unwrap(), b"over the session".to_vec());
}

#[test]
fn random_handshakes_agree_too() {
    let (a0, hello_a) = handshake_initiator(5, 6).unwrap();
    let (b0, hello_b) = handshake_responder(&hello_a, 7, 8).unwrap();
    let (a1, auth_a) = a0.on_hello(&alice(), &hello_b).unwrap();
    let b1 = b0.on_auth(&auth_a).unwrap();
    let mut trust = TrustedStore::new();
    trust.add_trusted(b1.get_peer_key().clone(), "alice".to_string(), 5);
    assert!(!b1.needs_consent(&trust));
    match b1.finish(&bob(), None, &mut trust, 10) {
        ResponderStep::Accepted { session, frame } => match a1.on_reply(&frame).unwrap() {
            InitiatorStep::Done(a) => {
                assert_eq!(a.send_key, session.recv_key);
                assert_eq!(a.recv_key, session.send_key);
                assert_eq!((a.peer_id, a.peer_name.as_str()), (bob().node_id, bob().name.as_str()));
                assert_eq!((a.peer_quota, a.peer_total_memory), (7, 8));
                assert_eq!(session.peer_id, alice().node_id);
                assert_eq!((session.peer_quota, session.peer_total_memory), (5, 6));
            }
            InitiatorStep::WaitForConsent(_) => panic!("the answer is final"),
        },
        ResponderStep::Refused { error, .. } => panic!("refused: {:?}", error),
    }
    let (_, again) = handshake_initiator(5, 6).unwrap();
    assert_ne!(again, hello_a);
}

#[test]
fn approval_with_trust_enters_the_key() {
    let mut trust = TrustedStore::new();
    let (a, step) = run(Some(ConsentDecision::ApprovedAndTrusted), &mut trust);
    assert!(a.is_ok());
    assert!(matches!(step, ResponderStep::Accepted { .. }));
    let listed = trust.list_trusted();
    assert_eq!(listed.len(), 1);
    assert_eq!(listed[0].public_key, hex_of(&alice().public_key()));
    assert_eq!(listed[0].name, "alice");
    assert_eq!((listed[0].first_seen, listed[0].last_approved), (1000, 1000));
    assert_eq!(listed[0].public_key.len(), 64);
}

#[test]
fn denial_leaves_no_trace() {
    for decision in [Some(ConsentDecision::Denied), Some(ConsentDecision::Pending), None] {
        let mut trust = TrustedStore::new();
        let (a, step) = run(decision, &mut trust);
        assert_eq!(a.err(), Some(HandshakeError::ConsentDenied));
        match step {
            ResponderStep::Refused { error, frame } => {
                assert_eq!(error, HandshakeError::ConsentDenied);
                assert!(
                    matches!(
                        decode_message(&frame.unwrap()),
                        Some(HandshakeMessage::ConsentDenied),
                    ),
                );
            }
            ResponderStep::Accepted { .. } => panic!("a denied peer is not let in"),
        }
        assert!(trust.list_trusted().is_empty());
    }
}

#[test]
fn hello_carries_version_key_and_offer() {
    let (_, hello) = initiator_hello(77, 88, [1u8; 32], [2u8; 32]);
    match decode_message(&hello) {
        Some(HandshakeMessage::Hello(h)) => {
            assert_eq!(h.version, 2);
            assert_eq!(h.nonce, [2u8; 32]);
            assert_eq!(h.eph_pub, exchange_public_key(&[1u8; 32]));
            assert_eq!((h.quota, h.total_memory), (77, 88));
        }
        other => panic!("unexpected: {:?}", other),
    }
    assert_eq!(hello.len(), 83);
}

#[test]
fn exchange_public_key_is_x25519_of_the_base_point() {
    let secret = [9u8; 32];
    let expected = x25519_dalek::x25519(secret, x25519_dalek::X25519_BASEPOINT_BYTES);
    assert_eq!(exchange_public_key(&secret), expected);
    assert_ne!(exchange_public_key(&secret), secret);
    let s = x25519_dalek::StaticSecret::from(secret);
    assert_eq!(exchange_public_key(&secret), x25519_dalek::PublicKey::from(&s).to_bytes());
}

#[test]
fn identity_key_is_ed25519() {
    let key = ed25519_dalek::SigningKey::from_bytes(&[11u8; 32]);
    assert_eq!(alice().public_key(), key.verifying_key().to_bytes());
    let fresh = Identity::new(1, "n".to_string()).unwrap();
    assert_eq!((fresh.node_id, fresh.name.as_str()), (1, "n"));
    assert_ne!(fresh.keypair, Identity::new(1, "n".to_string()).unwrap().keypair);
}

#[test]
fn derived_key_hashes_secret_context_and_label() {
    let key = derive_key("traffic_a", &[1, 2, 3], &[4, 5]);
    let mut input = vec![1u8, 2, 3, 4, 5];
    input.extend_from_slice(b"traffic_a");
    assert_eq!(key, *blake3::hash(&input).as_bytes());
    assert_ne!(key, derive_key("traffic_b", &[1, 2, 3], &[4, 5]));
}

#[test]
fn wrong_version_or_wrong_message_is_refused() {
    let old = encode_message(&HandshakeMessage::Hello(HandshakeHello {
        version: 1,
        nonce: [0u8; 32],
        eph_pub: [9u8; 32],
        quota: 0,
        total_memory: 0,
    }));
    assert_eq!(
        responder_hello(&old, 1, 1, [3u8; 32], [4u8; 32]).err(),
        Some(HandshakeError::VersionMismatch),
    );
    let (a0, _) = initiator_hello(1, 1, [1u8; 32], [2u8; 32]);
    assert_eq!(a0.on_hello(&alice(), &old).err(), Some(HandshakeError::VersionMismatch));

    let denied = encode_message(&HandshakeMessage::ConsentDenied);
    assert_eq!(
        responder_hello(&denied, 1, 1, [3u8; 32], [4u8; 32]).err(),
        Some(HandshakeError::Unexpected),
    );
    assert_eq!(
        responder_hello(&[9, 9], 1, 1, [3u8; 32], [4u8; 32]).err(),
        Some(HandshakeError::Malformed),
    );
    assert_eq!(handshake_responder(&old, 1, 1).err(), Some(HandshakeError::VersionMismatch));
    assert_eq!(handshake_responder(&denied, 1, 1).err(), Some(HandshakeError::Unexpected));
    assert_eq!(handshake_responder(&[9, 9], 1, 1).err(), Some(HandshakeError::Malformed));
    let mut long = denied.clone();
    long.push(0);
    assert!(decode_message(&long).is_none());

    let (a0, hello_a) = initiator_hello(1, 1, [1u8; 32], [2u8; 32]);
    let (b0, hello_b) = responder_hello(&hello_a, 1, 1, [3u8; 32], [4u8; 32]).unwrap();
    assert_eq!(b0.on_auth(&hello_b).err(), Some(HandshakeError::Unexpected));
    let (a1, _) = a0.on_hello(&alice(), &hello_b).unwrap();
    assert_eq!(a1.on_reply(&hello_b).err(), Some(HandshakeError::Unexpected));
}

#[test]
fn tampered_proof_is_refused() {
    let (a0, hello_a) = initiator_hello(1, 1, [1u8; 32], [2u8; 32]);
    let (b0, hello_b) = responder_hello(&hello_a, 1, 1, [3u8; 32], [4u8; 32]).unwrap();
    let (_, auth_a) = a0.on_hello(&alice(), &hello_b).unwrap();
    let mut bad = auth_a.clone();
    let last = bad.len() - 1;
    bad[last] ^= 0x80;
    assert_eq!(b0.on_auth(&bad).err(), Some(HandshakeError::DecryptionFailed));
}

#[test]
fn proof_signed_over_another_transcript_is_refused() {
    let key = [8u8; 32];
    let nonce = [0u8; 12];
    let sealed = seal_auth(&alice(), &key, &nonce, &[1u8; 32]).unwrap();
    let opened = open_auth(&key, &nonce, &sealed, &[1u8; 32]).unwrap();
    assert_eq!(opened.node_id, 0xa11ce);
    assert_eq!(opened.pub_key, alice().public_key());
    assert_eq!(opened.name, "alice");
    assert_eq!(opened.signature.len(), 64);
    assert_eq!(
        open_auth(&key, &nonce, &sealed, &[2u8; 32]).err(),
        Some(HandshakeError::BadSignature),
    );
    assert_eq!(
        open_auth(&key, &[0, 0, 0, 0, 0, 0, 0, 0, 0, 0, 0, 1], &sealed, &[1u8; 32]).err(),
        Some(HandshakeError::DecryptionFailed)
    );
}

fn sealed_auth(auth: &HandshakeAuth, key: &[u8; 32]) -> Vec<u8> {
    let cipher = chacha20poly1305::ChaCha20Poly1305::new(chacha20poly1305::Key::from_slice(key));
    cipher
        .encrypt(
            chacha20poly1305::Nonce::from_slice(&[0u8; 12]),
            encode_auth_bytes(auth).as_slice(),
        )
        .unwrap()
}

#[test]
fn each_flaw_of_a_proof_has_its_error() {
    let key = [8u8; 32];
    let nonce = [0u8; 12];
    let short = HandshakeAuth {
        node_id: 1,
        pub_key: alice().public_key(),
        name: "x".to_string(),
        signature: vec![0u8; 63],
    };
    assert_eq!(
        open_auth(&key, &nonce, &sealed_auth(&short, &key), &[1u8; 32]).err(),
        Some(HandshakeError::InvalidSignatureLength)
    );
    let mut point = [0u8; 32];
    point[0] = 2;
    let no_key = HandshakeAuth {
        node_id: 1,
        pub_key: point,
        name: "x".to_string(),
        signature: vec![0u8; 64],
    };
    assert_eq!(
        open_auth(&key, &nonce, &sealed_auth(&no_key, &key), &[1u8; 32]).err(),
        Some(HandshakeError::InvalidKey)
    );
    let cipher = chacha20poly1305::ChaCha20Poly1305::new(chacha20poly1305::Key::from_slice(&key));
    let junk = cipher.encrypt(
        chacha20poly1305::Nonce::from_slice(&nonce),
        [1u8, 2, 3].as_ref(),
    ).unwrap();
    assert_eq!(open_auth(&key, &nonce, &junk, &[1u8; 32]).err(), Some(HandshakeError::Malformed));
}

#[test]
fn proof_of_identity_survives_encoding() {
    let auth = HandshakeAuth {
        node_id: u128::MAX - 1,
        pub_key: [7u8; 32],
        name: "nœud".to_string(),
        signature: vec![1u8; 64],
    };
    let bytes = encode_auth_bytes(&auth);
    let back = decode_auth_bytes(&bytes).unwrap();
    assert_eq!(back.node_id, u128::MAX - 1);
    assert_eq!(back.pub_key, [7u8; 32]);
    assert_eq!(back.name, "nœud");
    assert_eq!(back.signature, vec![1u8; 64]);
    assert!(decode_auth_bytes(&bytes[..bytes.len() - 1]).is_none());
}

#[test]
fn consent_request_names_its_reason() {
    match decode_message(&consent_required_frame()) {
        Some(HandshakeMessage::ConsentRequired { reason }) => assert_eq!(reason, "untrusted_peer"),
        other => panic!("unexpected: {:?}", other),
    }
}

#[test]
fn responder_knows_the_peer_by_the_hex_of_its_key() {
    let (a0, hello_a) = initiator_hello(123, 1, [1u8; 32], [2u8; 32]);
    let (b0, hello_b) = responder_hello(&hello_a, 1, 1, [3u8; 32], [4u8; 32]).unwrap();
    let (_, auth_a) = a0.on_hello(&alice(), &hello_b).unwrap();
    let b1 = b0.on_auth(&auth_a).unwrap();
    assert_eq!(b1.get_peer_key().as_str(), hex_of(&alice().public_key()));
    assert_eq!(b1.get_peer_name().as_str(), "alice");
    assert_eq!(b1.get_peer_quota(), 123);
    let mut trust = TrustedStore::new();
    assert!(b1.needs_consent(&trust));
    trust.add_trusted(hex_of(&alice().public_key()), "alice".to_string(), 1);
    assert!(!b1.needs_consent(&trust));
}
