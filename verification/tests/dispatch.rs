use memcloud::blocks::BlockManager;
use memcloud::blocks::InMemoryBlockManager;
use memcloud::blocks::Lookup;
use memcloud::framing::decode_frame;
use memcloud::framing::Framed;
use memcloud::net::connection_closed;
use memcloud::net::decode;
use memcloud::net::encode;
use memcloud::net::handle_connection_split;
use memcloud::net::handle_message;
use memcloud::net::handle_message_with;
use memcloud::net::next_bind_port;
use memcloud::net::Delivery;
use memcloud::net::Message;
use memcloud::peers::PeerManager;
use memcloud::secure_stream::SecureReader;
use memcloud::secure_stream::SecureWriter;

const PEER: u128 = 50;
const MB: u64 = 1024 * 1024;

fn node(allowed: u64) -> (InMemoryBlockManager, PeerManager) {
    let store = InMemoryBlockManager::new(16 * MB);
    let mut peers = PeerManager::new(1, "self".to_string()).unwrap();
    peers.register_authenticated_peer(
        PEER,
        "10.0.0.5:8080".to_string(),
        "peer".to_string(),
        allowed,
        0,
        0,
    );
    (store, peers)
}

fn used(peers: &PeerManager) -> u64 {
    peers.get_peer(PEER).unwrap().remote_used_storage
}

#[test]
fn put_block_within_quota_is_stored() {
    let (mut store, mut peers) = node(MB);
    let out = handle_message(
        &mut store,
        &mut peers,
        PEER,
        Message::PutBlock { id: 1, data: vec![7u8; MB as usize] },
        5,
    );
    assert!(out.reply.is_none() && out.delivery.is_none() && !out.close);
    assert_eq!(store.get_block(1).unwrap().unwrap().data.len(), MB as usize);
    assert_eq!(used(&peers), MB);
    let out = handle_message(
        &mut store,
        &mut peers,
        PEER,
        Message::PutBlock { id: 2, data: vec![1] },
        5,
    );
    assert!(out.reply.is_none());
    assert!(store.get_block(2).unwrap().is_none());
    assert_eq!(used(&peers), MB);
}

#[test]
fn put_block_over_quota_is_dropped() {
    let (mut store, mut peers) = node(MB);
    let out = handle_message(
        &mut store,
        &mut peers,
        PEER,
        Message::PutBlock { id: 1, data: vec![7u8; MB as usize + 1] },
        5,
    );
    assert!(out.reply.is_none() && !out.close);
    assert!(store.get_block(1).unwrap().is_none());
    assert!(matches!(store.get_block_async(1), Lookup::Missing));
    assert_eq!(used(&peers), 0);
    assert_eq!(store.used_space(), 0);
}

#[test]
fn put_block_that_the_store_refuses_gives_the_quota_back() {
    let (mut store, mut peers) = node(64 * MB);
    let out = handle_message(
        &mut store,
        &mut peers,
        PEER,
        Message::PutBlock { id: 1, data: vec![0u8; 17 * MB as usize] },
        5,
    );
    assert!(out.reply.is_none());
    assert_eq!(used(&peers), 0);
    let _ = handle_message(
        &mut store,
        &mut peers,
        PEER,
        Message::PutBlock { id: 2, data: vec![1, 2] },
        5,
    );
    let _ = handle_message(
        &mut store,
        &mut peers,
        PEER,
        Message::PutBlock { id: 2, data: vec![3, 4, 5] },
        5,
    );
    assert_eq!(used(&peers), 2);
    assert_eq!(store.get_block(2).unwrap().unwrap().data, vec![1, 2]);
    let _ = handle_message(
        &mut store,
        &mut peers,
        999,
        Message::PutBlock { id: 3, data: vec![1] },
        5,
    );
    assert!(store.get_block(3).unwrap().is_none());
}

#[test]
fn get_block_is_answered_with_block_data() {
    let (mut store, mut peers) = node(MB);
    let _ = handle_message(
        &mut store,
        &mut peers,
        PEER,
        Message::PutBlock { id: 1, data: b"abc".to_vec() },
        5,
    );
    match handle_message(&mut store, &mut peers, PEER, Message::GetBlock { id: 1 }, 6).reply {
        Some(Message::BlockData { id, data }) => assert_eq!((id, data), (1, Some(b"abc".to_vec()))),
        other => panic!("unexpected: {:?}", other),
    }
    match handle_message(&mut store, &mut peers, PEER, Message::GetBlock { id: 2 }, 6).reply {
        Some(Message::BlockData { id, data }) => assert_eq!((id, data), (2, None)),
        other => panic!("unexpected: {:?}", other),
    }
}

#[test]
fn put_key_then_get_key_returns_the_value() {
    let (mut store, mut peers) = node(MB);
    let out = handle_message_with(
        &mut store,
        &mut peers,
        PEER,
        Message::PutKey { key: "greeting".to_string(), data: b"hi".to_vec() },
        5,
        4242,
    );
    match out.reply {
        Some(Message::KeyStored { key, id }) => assert_eq!((key.as_str(), id), ("greeting", 4242)),
        other => panic!("unexpected: {:?}", other),
    }
    assert_eq!(used(&peers), 2);
    match handle_message(
        &mut store,
        &mut peers,
        777,
        Message::GetKey { key: "greeting".to_string() },
        6,
    ).reply {
        Some(Message::KeyFound { key, data }) => assert_eq!(
            (key.as_str(), data),
            ("greeting", Some(b"hi".to_vec())),
        ),
        other => panic!("unexpected: {:?}", other),
    }
    match handle_message(
        &mut store,
        &mut peers,
        PEER,
        Message::GetKey { key: "absent".to_string() },
        6,
    ).reply {
        Some(Message::KeyFound { key, data }) => assert_eq!((key.as_str(), data), ("absent", None)),
        other => panic!("unexpected: {:?}", other),
    }
    let over = handle_message(
        &mut store,
        &mut peers,
        PEER,
        Message::PutKey { key: "big".to_string(), data: vec![0u8; MB as usize] },
        5,
    );
    assert!(over.reply.is_none());
    assert_eq!(store.get_named_block_id("big"), None);
    let clash = handle_message_with(
        &mut store,
        &mut peers,
        PEER,
        Message::PutKey { key: "again".to_string(), data: vec![1] },
        5,
        4242,
    );
    assert!(clash.reply.is_none());
    assert_eq!(used(&peers), 2);
    let random = handle_message(
        &mut store,
        &mut peers,
        PEER,
        Message::PutKey { key: "r".to_string(), data: vec![1] },
        5,
    );
    assert!(matches!(random.reply, Some(Message::KeyStored { .. })));
}

#[test]
fn replies_reach_waiters_once_and_empty_key_replies_are_ignored() {
    let (mut store, mut peers) = node(MB);
    let _ = peers.wait_for_block(1);
    let _ = peers.wait_for_key("k");
    let _ = peers.wait_for_key_store("k");
    let nobody_waits = handle_message(
        &mut store,
        &mut peers,
        PEER,
        Message::BlockData { id: 2, data: None },
        5,
    );
    assert!(nobody_waits.delivery.is_none());
    match handle_message(
        &mut store,
        &mut peers,
        PEER,
        Message::BlockData { id: 1, data: None },
        5,
    ).delivery {
        Some(Delivery::Block { id, data }) => assert_eq!((id, data), (1, None)),
        other => panic!("unexpected: {:?}", other),
    }
    assert!(
        handle_message(
            &mut store,
            &mut peers,
            PEER,
            Message::BlockData { id: 1, data: Some(vec![9]) },
            5,
        ).delivery.is_none(),
    );
    let _ = peers.wait_for_block(1);
    match handle_message(
        &mut store,
        &mut peers,
        PEER,
        Message::BlockData { id: 1, data: Some(vec![9]) },
        5,
    ).delivery {
        Some(Delivery::Block { id, data }) => assert_eq!((id, data), (1, Some(vec![9]))),
        other => panic!("unexpected: {:?}", other),
    }
    assert!(
        handle_message(
            &mut store,
            &mut peers,
            PEER,
            Message::BlockData { id: 1, data: Some(vec![9]) },
            5,
        ).delivery.is_none(),
    );

    assert!(
        handle_message(
            &mut store,
            &mut peers,
            PEER,
            Message::KeyFound { key: "k".to_string(), data: None },
            5,
        ).delivery.is_none(),
    );
    match handle_message(
        &mut store,
        &mut peers,
        PEER,
        Message::KeyFound { key: "k".to_string(), data: Some(vec![8]) },
        5,
    ).delivery {
        Some(Delivery::Key { key, data }) => assert_eq!((key.as_str(), data), ("k", vec![8])),
        other => panic!("unexpected: {:?}", other),
    }
    assert!(
        handle_message(
            &mut store,
            &mut peers,
            51,
            Message::KeyFound { key: "k".to_string(), data: Some(vec![7]) },
            5,
        ).delivery.is_none(),
    );

    match handle_message(
        &mut store,
        &mut peers,
        PEER,
        Message::KeyStored { key: "k".to_string(), id: 3 },
        5,
    ).delivery {
        Some(Delivery::KeyStored { key, id }) => assert_eq!((key.as_str(), id), ("k", 3)),
        other => panic!("unexpected: {:?}", other),
    }
    assert!(
        handle_message(
            &mut store,
            &mut peers,
            PEER,
            Message::KeyStored { key: "k".to_string(), id: 3 },
            5,
        ).delivery.is_none(),
    );
}

#[test]
fn quota_flush_and_bye() {
    let (mut store, mut peers) = node(MB);
    let _ = handle_message(&mut store, &mut peers, PEER, Message::UpdateQuota { quota: 123 }, 5);
    assert_eq!(peers.get_peer(PEER).unwrap().remote_quota, 123);
    let _ = handle_message(
        &mut store,
        &mut peers,
        PEER,
        Message::PutBlock { id: 1, data: vec![1] },
        5,
    );
    let out = handle_message(&mut store, &mut peers, PEER, Message::Flush, 5);
    assert!(!out.close && out.reply.is_none());
    assert_eq!(store.block_count(), 0);
    assert!(handle_message(&mut store, &mut peers, PEER, Message::Bye, 5).close);
    let quiet = handle_message(&mut store, &mut peers, PEER, Message::Ack, 5);
    assert!(!quiet.close && quiet.reply.is_none() && quiet.delivery.is_none());
    let hello = Message::Hello {
        version: 1,
        node_id: 2,
        name: "old".to_string(),
        total_memory: 0,
        used_memory: 0,
    };
    assert!(!handle_message(&mut store, &mut peers, PEER, hello, 5).close);
}

#[test]
fn closed_connection_clears_peer_and_its_notes() {
    let (mut store, mut peers) = node(MB);
    assert_eq!(store.bind_remote("far".to_string(), 9, PEER), Ok(9));
    connection_closed(&mut store, &mut peers, PEER);
    assert!(!peers.is_connected(PEER));
    assert!(matches!(store.get_block_async(9), Lookup::Missing));
    assert_eq!(store.get_named_block_id("far"), None);
}

fn sealed_payload(writer: &mut SecureWriter, plain: &[u8]) -> Vec<u8> {
    let frame = writer.send_frame(plain).unwrap();
    match decode_frame(&frame) {
        Framed::Frame { payload, .. } => payload,
        Framed::Incomplete => panic!("a sent frame is whole"),
    }
}

#[test]
fn sealed_frames_are_opened_handled_and_answered() {
    let (mut store, mut peers) = node(MB);
    let to_node = [1u8; 32];
    let to_peer = [2u8; 32];
    let mut peer_writer = SecureWriter::new(&to_node);
    let mut peer_reader = SecureReader::new(&to_peer);
    let mut reader = SecureReader::new(&to_node);
    let mut writer = SecureWriter::new(&to_peer);

    let put = sealed_payload(
        &mut peer_writer,
        &encode(&Message::PutBlock { id: 1, data: b"abc".to_vec() }),
    );
    let out = handle_connection_split(
        &mut reader,
        &mut writer,
        &mut store,
        &mut peers,
        PEER,
        &put,
        5,
    );
    assert!(out.reply.is_none() && !out.close);

    let get = sealed_payload(&mut peer_writer, &encode(&Message::GetBlock { id: 1 }));
    let out = handle_connection_split(
        &mut reader,
        &mut writer,
        &mut store,
        &mut peers,
        PEER,
        &get,
        5,
    );
    let reply = out.reply.unwrap();
    let plain = peer_reader.recv_frame(&reply[4..]).unwrap();
    match decode(&plain) {
        Ok(Message::BlockData { id, data }) => assert_eq!((id, data), (1, Some(b"abc".to_vec()))),
        other => panic!("unexpected: {:?}", other),
    }

    let unknown = sealed_payload(&mut peer_writer, &[99, 1, 2, 3]);
    let out = handle_connection_split(
        &mut reader,
        &mut writer,
        &mut store,
        &mut peers,
        PEER,
        &unknown,
        5,
    );
    assert!(out.reply.is_none() && !out.close);
    assert!(peers.is_connected(PEER));

    let bye = sealed_payload(&mut peer_writer, &encode(&Message::Bye));
    let out = handle_connection_split(
        &mut reader,
        &mut writer,
        &mut store,
        &mut peers,
        PEER,
        &bye,
        5,
    );
    assert!(out.close);
    assert!(!peers.is_connected(PEER));
}

#[test]
fn tampered_or_malformed_frame_closes_the_connection() {
    let (mut store, mut peers) = node(MB);
    let key = [1u8; 32];
    let mut peer_writer = SecureWriter::new(&key);
    let mut reader = SecureReader::new(&key);
    let mut writer = SecureWriter::new(&[2u8; 32]);
    let mut bad = sealed_payload(&mut peer_writer, &encode(&Message::GetBlock { id: 1 }));
    bad[0] ^= 1;
    let out = handle_connection_split(
        &mut reader,
        &mut writer,
        &mut store,
        &mut peers,
        PEER,
        &bad,
        5,
    );
    assert!(out.close && out.reply.is_none());
    assert!(!peers.is_connected(PEER));
    assert!(peers.list_peers().is_empty());

    let (mut store, mut peers) = node(MB);
    let mut peer_writer = SecureWriter::new(&key);
    let mut reader = SecureReader::new(&key);
    let broken = sealed_payload(&mut peer_writer, &[2, 0, 0]);
    let out = handle_connection_split(
        &mut reader,
        &mut writer,
        &mut store,
        &mut peers,
        PEER,
        &broken,
        5,
    );
    assert!(out.close);
    assert!(!peers.is_connected(PEER));
}

#[test]
fn transport_tries_ten_ports() {
    assert_eq!(next_bind_port(8080, 0), Some(8080));
    assert_eq!(next_bind_port(8080, 9), Some(8089));
    assert_eq!(next_bind_port(8080, 10), None);
    assert_eq!(next_bind_port(65530, 5), Some(65535));
    assert_eq!(next_bind_port(65530, 6), None);
}
