use memcloud::blocks::Durability;
use memcloud::blocks::StoreError;
use memcloud::client::client_error_message;
use memcloud::client::expect_connection;
use memcloud::client::expect_consents;
use memcloud::client::expect_flushed;
use memcloud::client::expect_list;
use memcloud::client::expect_loaded;
use memcloud::client::expect_peers;
use memcloud::client::expect_status;
use memcloud::client::expect_stored;
use memcloud::client::expect_stream;
use memcloud::client::expect_success;
use memcloud::client::expect_trusted;
use memcloud::client::ClientError;
use memcloud::client::StreamUpload;
use memcloud::consent::ConsentDecision;
use memcloud::net::Message;
use memcloud::rpc::finish_get;
use memcloud::rpc::finish_load;
use memcloud::rpc::store_error_message;
use memcloud::rpc::Node;
use memcloud::rpc::Outcome;
use memcloud::rpc::SdkCommand;
use memcloud::rpc::SdkResponse;

const B: u128 = 0xb;

fn node() -> Node {
    Node::new(1, "a".to_string(), 1024 * 1024).unwrap()
}

fn with_peer() -> Node {
    let mut n = node();
    n.peers.register_authenticated_peer(
        B,
        "10.0.0.2:8080".to_string(),
        "b".to_string(),
        1 << 20,
        1 << 30,
        1 << 20,
    );
    n
}

fn reply(out: Outcome) -> SdkResponse {
    match out {
        Outcome::Reply(r) => r,
        other => panic!("unexpected: {:?}", other),
    }
}

fn error_of(r: SdkResponse) -> String {
    match r {
        SdkResponse::Error { msg } => msg,
        other => panic!("unexpected: {:?}", other),
    }
}

#[test]
fn local_round_trip() {
    let mut n = node();
    let id = expect_stored(
        reply(
            n.handle_command(SdkCommand::Store { data: b"hello".to_vec(), durability: None }, 10),
        ),
    ).unwrap();
    assert_eq!(
        expect_loaded(reply(n.handle_command(SdkCommand::Load { id }, 11))).unwrap(),
        b"hello".to_vec(),
    );
    assert!(expect_success(reply(n.handle_command(SdkCommand::Free { id }, 12))).is_ok());
    assert_eq!(error_of(reply(n.handle_command(SdkCommand::Load { id }, 13))), "Block not found");
    assert!(expect_success(reply(n.handle_command(SdkCommand::Free { id }, 14))).is_ok());
}

#[test]
fn stream_upload() {
    let mut n = node();
    let s = expect_stream(
        reply(n.handle_command(SdkCommand::StreamStart { size_hint: Some(3) }, 1)),
    ).unwrap();
    let mut upload = StreamUpload::new(s);
    let first = upload.stream_data(b"ab".to_vec()).unwrap();
    assert!(matches!(first, SdkCommand::StreamChunk { chunk_seq: 0, .. }));
    assert!(expect_success(reply(n.handle_command(first, 2))).is_ok());
    let second = upload.stream_data(b"c".to_vec()).unwrap();
    assert!(matches!(second, SdkCommand::StreamChunk { chunk_seq: 1, .. }));
    assert!(expect_success(reply(n.handle_command(second, 3))).is_ok());
    let z = expect_stored(reply(n.handle_command(upload.finish(None), 4))).unwrap();
    assert_eq!(
        expect_loaded(reply(n.handle_command(SdkCommand::Load { id: z }, 5))).unwrap(),
        b"abc".to_vec(),
    );

    assert_eq!(
        error_of(
            reply(
                n.handle_command(
                    SdkCommand::StreamChunk { stream_id: s, chunk_seq: 2, data: vec![1] },
                    6,
                ),
            ),
        ),
        format!("Stream ID {} not found or already closed", s)
    );
    assert_eq!(
        error_of(
            reply(
                n.handle_command(
                    SdkCommand::StreamFinish { stream_id: s, target: None, durability: None },
                    7,
                ),
            ),
        ),
        format!("Stream ID {} not found", s)
    );
}

#[test]
fn upload_runs_out_of_chunk_numbers() {
    let mut upload = StreamUpload { stream_id: 1, next_seq: u32::MAX - 1 };
    assert!(
        matches!(
            upload.stream_data(vec![]),
            Some(SdkCommand::StreamChunk { chunk_seq, .. }) if chunk_seq == u32::MAX - 1,
        ),
    );
    assert!(upload.stream_data(vec![]).is_none());
    assert_eq!(upload.next_seq, u32::MAX);
}

#[test]
fn set_then_get_returns_the_value() {
    let mut n = node();
    let id = expect_stored(reply(n.handle_command_with(
        SdkCommand::SetKey {
            key: "greeting".to_string(),
            data: b"hi".to_vec(),
            target: None,
            durability: Some(Durability::Pinned),
        },
        1,
        99,
    )))
    .unwrap();
    assert_eq!(id, 99);
    assert_eq!(
        expect_loaded(
            reply(
                n.handle_command(SdkCommand::Get { key: "greeting".to_string(), target: None }, 2),
            ),
        ).unwrap(),
        b"hi".to_vec(),
    );
    assert_eq!(
        expect_list(
            reply(n.handle_command(SdkCommand::ListKeys { pattern: "gre*".to_string() }, 3)),
        ).unwrap(),
        vec!["greeting".to_string()],
    );
    let clash = n.handle_command_with(SdkCommand::Store { data: vec![1], durability: None }, 4, 99);
    assert_eq!(error_of(reply(clash)), "Block id already in use");
}

#[test]
fn get_with_nobody_to_ask_is_not_found() {
    let mut n = node();
    assert_eq!(
        error_of(
            reply(n.handle_command(SdkCommand::Get { key: "absent".to_string(), target: None }, 1)),
        ),
        "Key not found",
    );
    assert_eq!(error_of(finish_get(None)), "Key not found");
    assert_eq!(expect_loaded(finish_get(Some(vec![1]))).unwrap(), vec![1]);
}

#[test]
fn get_of_unknown_key_asks_every_peer() {
    let mut n = with_peer();
    match n.handle_command(SdkCommand::Get { key: "greeting".to_string(), target: None }, 1) {
        Outcome::AskPeers { peers, key, request } => {
            assert_eq!(peers, vec![B]);
            assert_eq!(key, "greeting");
            assert!(matches!(request, Message::GetKey { .. }));
        }
        other => panic!("unexpected: {:?}", other),
    }
    assert_eq!(n.peers.satisfy_key_request("greeting", b"hi".to_vec()), Some(b"hi".to_vec()));
    match n.handle_command(
        SdkCommand::Get { key: "k".to_string(), target: Some("b".to_string()) },
        1,
    ) {
        Outcome::AskPeers { peers, .. } => assert_eq!(peers, vec![B]),
        other => panic!("unexpected: {:?}", other),
    }
    assert_eq!(
        error_of(
            reply(
                n.handle_command(
                    SdkCommand::Get { key: "k".to_string(), target: Some("zed".to_string()) },
                    1,
                ),
            ),
        ),
        "Peer 'zed' not found"
    );
}

#[test]
fn remote_key_write_as_seen_by_the_writer() {
    let mut a = with_peer();
    let out = a.handle_command(
        SdkCommand::SetKey {
            key: "greeting".to_string(),
            data: b"hi".to_vec(),
            target: Some("b".to_string()),
            durability: Some(Durability::Pinned),
        },
        1,
    );
    let (peer, key) = match out {
        Outcome::WriteKeyOnPeer { peer, key, request } => {
            match request {
                Message::PutKey { key, data } => assert_eq!(
                    (key.as_str(), data),
                    ("greeting", b"hi".to_vec()),
                ),
                other => panic!("unexpected: {:?}", other),
            }
            (peer, key)
        }
        other => panic!("unexpected: {:?}", other),
    };
    assert_eq!(peer, B);
    assert_eq!(a.peers.satisfy_key_store("greeting", 77), Some(77));
    assert_eq!(expect_stored(a.finish_remote_set(key, peer, Some(77))).unwrap(), 77);
    assert_eq!(a.store.get_named_block_id("greeting"), Some(77));
    assert!(
        matches!(
            a.handle_command(SdkCommand::Get { key: "greeting".to_string(), target: None }, 2),
            Outcome::AskPeers { .. },
        ),
    );
    match a.handle_command(SdkCommand::Load { id: 77 }, 3) {
        Outcome::FetchBlock { peer, id, request } => {
            assert_eq!((peer, id), (B, 77));
            assert!(matches!(request, Message::GetBlock { id: 77 }));
        }
        other => panic!("unexpected: {:?}", other),
    }
    assert_eq!(
        error_of(a.finish_remote_set("late".to_string(), B, None)),
        "Timeout waiting for remote key store",
    );
    assert_eq!(
        error_of(a.finish_remote_set("again".to_string(), B, Some(77))),
        "Block id already in use",
    );
    assert_eq!(error_of(finish_load(None)), "Timeout waiting for block data");
    assert_eq!(error_of(finish_load(Some(None))), "Block not found");
    assert_eq!(expect_loaded(finish_load(Some(Some(vec![5])))).unwrap(), vec![5]);
}

#[test]
fn remote_store_is_noted_once_sent() {
    let mut n = with_peer();
    let (peer, id, size) = match n.handle_command_with(
        SdkCommand::StoreRemote { data: b"abc".to_vec(), target: None, durability: None },
        1,
        5,
    ) {
        Outcome::StoreOnPeer { peer, id, size, request } => {
            assert!(matches!(request, Message::PutBlock { id: 5, .. }));
            (peer, id, size)
        }
        other => panic!("unexpected: {:?}", other),
    };
    assert_eq!((peer, id, size), (B, 5, 3));
    assert_eq!(
        error_of(n.finish_remote_store(id, peer, size, false)),
        "Failed to send block to peer",
    );
    assert_eq!(expect_stored(n.finish_remote_store(id, peer, size, true)).unwrap(), 5);
    assert_eq!(n.peers.get_peer(B).unwrap().used_memory, 3);
    assert!(matches!(n.handle_command(SdkCommand::Load { id: 5 }, 2), Outcome::FetchBlock { .. }));
    assert_eq!(error_of(n.finish_remote_store(id, peer, size, true)), "Block id already in use");

    let mut alone = node();
    assert_eq!(
        error_of(
            reply(
                alone.handle_command(
                    SdkCommand::StoreRemote { data: vec![1], target: None, durability: None },
                    1,
                ),
            ),
        ),
        "No suitable peer found for remote storage"
    );
}

#[test]
fn connect_is_answered_at_once_and_polled_later() {
    let mut n = node();
    match n.handle_command(
        SdkCommand::Connect { addr: "10.0.0.2:8080".to_string(), quota: Some(1 << 20) },
        1,
    ) {
        Outcome::Connect { addr, quota, reply } => {
            assert_eq!((addr.as_str(), quota), ("10.0.0.2:8080", 1 << 20));
            assert_eq!(expect_connection(reply).unwrap(), ("pending".to_string(), None));
        }
        other => panic!("unexpected: {:?}", other),
    }
    let poll = |n: &mut Node| expect_connection(
        reply(
            n.handle_command(SdkCommand::PollConnection { addr: "10.0.0.2:8080".to_string() }, 2),
        ),
    ).unwrap();
    assert_eq!(poll(&mut n).0, "pending");
    assert!(
        n.peers.handshake_event(
            "10.0.0.2:8080",
            memcloud::peers::HandshakeEvent::ConsentRequired,
            3,
        ),
    );
    assert_eq!(poll(&mut n).0, "waiting_consent");
    assert!(
        n.peers.handshake_event("10.0.0.2:8080", memcloud::peers::HandshakeEvent::Completed, 4),
    );
    assert_eq!(poll(&mut n).0, "connected");
    assert_eq!(
        poll(&mut n),
        ("unknown".to_string(), Some("No active handshake found".to_string())),
    );
    match n.handle_command(SdkCommand::Connect { addr: "x".to_string(), quota: None }, 1) {
        Outcome::Connect { quota, .. } => assert_eq!(quota, 0),
        other => panic!("unexpected: {:?}", other),
    }
}

#[test]
fn consent_approval_with_trust_enters_the_key() {
    let mut n = node();
    n.consent.request_consent("s1".to_string(), "aabb".to_string(), "alpha".to_string(), 10, 100);
    n.consent.request_consent("s2".to_string(), "ccdd".to_string(), "beta".to_string(), 10, 100);
    let pending = expect_consents(reply(n.handle_command(SdkCommand::ConsentList, 101))).unwrap();
    assert_eq!(pending.len(), 2);
    match n.handle_command(
        SdkCommand::ConsentApprove { session_id: "s2".to_string(), trust_always: true },
        102,
    ) {
        Outcome::Publish { session_id, decision, reply } => {
            assert_eq!(
                (session_id.as_str(), decision),
                ("s2", ConsentDecision::ApprovedAndTrusted),
            );
            assert!(expect_success(reply).is_ok());
        }
        other => panic!("unexpected: {:?}", other),
    }
    let trusted = expect_trusted(reply(n.handle_command(SdkCommand::TrustList, 103))).unwrap();
    assert_eq!(trusted.len(), 1);
    assert_eq!(
        (trusted[0].public_key.as_str(), trusted[0].name.as_str(), trusted[0].last_approved),
        ("ccdd", "beta", 102),
    );
    match n.handle_command(
        SdkCommand::ConsentApprove { session_id: "s1".to_string(), trust_always: false },
        104,
    ) {
        Outcome::Publish { decision, .. } => assert_eq!(decision, ConsentDecision::ApprovedOnce),
        other => panic!("unexpected: {:?}", other),
    }
    assert_eq!(n.trust.list_trusted().len(), 1);
    assert_eq!(
        error_of(
            reply(n.handle_command(SdkCommand::ConsentDeny { session_id: "s1".to_string() }, 105)),
        ),
        "No pending request for session s1"
    );
    n.consent.request_consent("s3".to_string(), "eeff".to_string(), "gamma".to_string(), 10, 100);
    match n.handle_command(SdkCommand::ConsentDeny { session_id: "s3".to_string() }, 106) {
        Outcome::Publish { decision, .. } => assert_eq!(decision, ConsentDecision::Denied),
        other => panic!("unexpected: {:?}", other),
    }
    assert_eq!(n.trust.list_trusted().len(), 1);
}

#[test]
fn trust_removal_disconnects_the_peer() {
    let mut n = with_peer();
    n.trust.add_trusted("aabb".to_string(), "b".to_string(), 1);
    n.trust.add_trusted("ccdd".to_string(), "offline".to_string(), 1);
    assert_eq!(
        error_of(
            reply(n.handle_command(SdkCommand::TrustRemove { key_or_name: "zz".to_string() }, 2)),
        ),
        "No matching trusted device found",
    );
    match n.handle_command(SdkCommand::TrustRemove { key_or_name: "ccdd".to_string() }, 2) {
        Outcome::Disconnect { peers, reply } => {
            assert!(peers.is_empty());
            assert!(expect_success(reply).is_ok());
        }
        other => panic!("unexpected: {:?}", other),
    }
    match n.handle_command(SdkCommand::TrustRemove { key_or_name: "b".to_string() }, 2) {
        Outcome::Disconnect { peers, .. } => assert_eq!(peers, vec![B]),
        other => panic!("unexpected: {:?}", other),
    }
    assert!(!n.peers.is_connected(B));
    assert!(n.trust.list_trusted().is_empty());
}

#[test]
fn peers_quota_disconnect_and_flush() {
    let mut n = with_peer();
    let peers = expect_peers(reply(n.handle_command(SdkCommand::ListPeers, 1))).unwrap();
    assert_eq!(peers.len(), 1);
    assert_eq!(
        (peers[0].id.as_str(), peers[0].name.as_str()),
        ("00000000-0000-0000-0000-00000000000b", "b"),
    );
    assert_eq!(expect_status(reply(n.handle_command(SdkCommand::Stat, 1))).unwrap(), (0, 1, 0));

    assert_eq!(
        error_of(
            reply(
                n.handle_command(
                    SdkCommand::UpdatePeerQuota {
                        peer_id: "b".to_string(),
                        quota: 1024 * 1024 + 1,
                    },
                    2,
                ),
            ),
        ),
        "Quota exceeds node memory limit (1048576)"
    );
    assert_eq!(
        error_of(
            reply(
                n.handle_command(
                    SdkCommand::UpdatePeerQuota { peer_id: "zed".to_string(), quota: 5 },
                    2,
                ),
            ),
        ),
        "Peer 'zed' not found",
    );
    match n.handle_command(
        SdkCommand::UpdatePeerQuota { peer_id: "b".to_string(), quota: 4096 },
        2,
    ) {
        Outcome::Notify { peer, message, reply } => {
            assert_eq!(peer, B);
            assert!(matches!(message, Message::UpdateQuota { quota: 4096 }));
            assert!(expect_success(reply).is_ok());
        }
        other => panic!("unexpected: {:?}", other),
    }
    assert_eq!(n.peers.get_peer(B).unwrap().ram_quota, 4096);

    match n.handle_command(SdkCommand::Flush { target: Some("b".to_string()) }, 3) {
        Outcome::Notify { peer, message, reply } => {
            assert_eq!(peer, B);
            assert!(matches!(message, Message::Flush));
            assert!(expect_flushed(reply).is_ok());
        }
        other => panic!("unexpected: {:?}", other),
    }
    let _ = n.handle_command(
        SdkCommand::Store { data: vec![1, 2], durability: Some(Durability::Cache) },
        3,
    );
    assert_eq!(expect_status(reply(n.handle_command(SdkCommand::Stat, 3))).unwrap(), (1, 1, 2));
    assert!(expect_flushed(reply(n.handle_command(SdkCommand::Flush { target: None }, 3))).is_ok());
    assert_eq!(expect_status(reply(n.handle_command(SdkCommand::Stat, 3))).unwrap(), (0, 1, 0));

    assert_eq!(
        error_of(reply(n.handle_command(SdkCommand::Disconnect { peer_id: "zed".to_string() }, 4))),
        "Peer not found",
    );
    match n.handle_command(SdkCommand::Disconnect { peer_id: "b".to_string() }, 4) {
        Outcome::Disconnect { peers, reply } => {
            assert_eq!(peers, vec![B]);
            assert!(expect_success(reply).is_ok());
        }
        other => panic!("unexpected: {:?}", other),
    }
    assert!(expect_peers(reply(n.handle_command(SdkCommand::ListPeers, 5))).unwrap().is_empty());
}

#[test]
fn memory_limit_is_reported() {
    let mut n = Node::new(1, "a".to_string(), 4).unwrap();
    assert_eq!(
        error_of(
            reply(n.handle_command(SdkCommand::Store { data: vec![0u8; 5], durability: None }, 1)),
        ),
        "Memory limit exceeded",
    );
    assert!(
        expect_stored(
            reply(n.handle_command(SdkCommand::Store { data: vec![0u8; 4], durability: None }, 1)),
        ).is_ok(),
    );
    assert_eq!(store_error_message(StoreError::UnknownStream), "Stream not found");
    assert_eq!(store_error_message(StoreError::PeerNotConnected), "Peer not connected");
}

#[test]
fn clients_tell_answers_apart() {
    assert!(matches!(expect_stored(SdkResponse::Success), Err(ClientError::Unexpected)));
    match expect_stored(SdkResponse::Error { msg: "no".to_string() }) {
        Err(e) => assert_eq!(client_error_message(&e), "no"),
        Ok(_) => panic!("an error is no id"),
    }
    assert!(
        matches!(
            expect_peers(SdkResponse::List { items: vec![] }),
            Err(ClientError::LegacyPeerList),
        ),
    );
    assert_eq!(
        client_error_message(&ClientError::LegacyPeerList),
        "Received legacy peer list format",
    );
    assert_eq!(client_error_message(&ClientError::Unexpected), "Unexpected response");
    assert!(matches!(expect_loaded(SdkResponse::Stored { id: 1 }), Err(ClientError::Unexpected)));
    assert!(matches!(expect_success(SdkResponse::FlushSuccess), Err(ClientError::Unexpected)));
    assert!(matches!(expect_flushed(SdkResponse::Success), Err(ClientError::Unexpected)));
    assert!(matches!(expect_list(SdkResponse::Success), Err(ClientError::Unexpected)));
    assert!(matches!(expect_connection(SdkResponse::Success), Err(ClientError::Unexpected)));
    assert!(matches!(expect_status(SdkResponse::Success), Err(ClientError::Unexpected)));
    assert!(matches!(expect_stream(SdkResponse::Success), Err(ClientError::Unexpected)));
    assert!(matches!(expect_trusted(SdkResponse::Success), Err(ClientError::Unexpected)));
    assert!(matches!(expect_consents(SdkResponse::Success), Err(ClientError::Unexpected)));
    assert_eq!(
        expect_status(SdkResponse::Status { blocks: 1, peers: 2, memory_usage: 3 }).unwrap(),
        (1, 2, 3),
    );
}
