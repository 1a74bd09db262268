use memcloud::auth::consent_required_frame;
use memcloud::auth::handshake_initiator;
use memcloud::auth::handshake_responder;
use memcloud::auth::InitiatorStep;
use memcloud::auth::ResponderStep;
use memcloud::blocks::Block;
use memcloud::blocks::BlockManager;
use memcloud::blocks::Durability;
use memcloud::blocks::InMemoryBlockManager;
use memcloud::blocks::StoreError;
use memcloud::discovery::discovered_peer;
use memcloud::glob::find_text;
use memcloud::net::encode;
use memcloud::net::handle_connection_split;
use memcloud::net::Delivery;
use memcloud::net::FrameOutcome;
use memcloud::net::Message;
use memcloud::peers::HandshakeEvent;
use memcloud::rpc::finish_get;
use memcloud::rpc::finish_load;
use memcloud::rpc::Node;
use memcloud::rpc::Outcome;
use memcloud::rpc::SdkCommand;
use memcloud::rpc::SdkResponse;
use memcloud::secure_stream::SecureReader;
use memcloud::secure_stream::SecureWriter;
use memcloud::trust::TrustedDevice;
use memcloud::trust::TrustedStore;

const MB: u64 = 1024 * 1024;
const A: u128 = 0xaaaa;
const B: u128 = 0xbbbb;
const ADDR_B: &str = "10.0.0.2:8080";
const ADDR_A: &str = "10.0.0.1:40000";

struct TwoNodes {
    a: Node,
    b: Node,
    a_writer: SecureWriter,
    a_reader: SecureReader,
    b_writer: SecureWriter,
    b_reader: SecureReader,
}

fn state_of(node: &mut Node, addr: &str) -> String {
    match node.handle_command(SdkCommand::PollConnection { addr: addr.to_string() }, 10) {
        Outcome::Reply(SdkResponse::ConnectionStatus { state, .. }) => state,
        other => panic!("unexpected: {:?}", other),
    }
}

fn hex_of(bytes: &[u8]) -> String {
    let mut s = String::new();
    for b in bytes {
        s.push_str(&format!("{:02x}", b));
    }
    s
}

fn first_contact() -> TwoNodes {
    let mut a = Node::new(A, "a".to_string(), 16 * MB).unwrap();
    let mut b = Node::new(B, "b".to_string(), MB).unwrap();

    match a.handle_command(SdkCommand::Connect { addr: ADDR_B.to_string(), quota: Some(MB) }, 1) {
        Outcome::Connect { quota, reply: SdkResponse::ConnectionStatus { state, msg }, .. } => {
            assert_eq!(quota, MB);
            assert_eq!((state.as_str(), msg), ("pending", None));
        }
        other => panic!("unexpected: {:?}", other),
    }
    assert_eq!(state_of(&mut a, ADDR_B), "pending");

    let identity_a = a.peers.get_identity().clone();
    let identity_b = b.peers.get_identity().clone();
    let (a0, hello_a) = handshake_initiator(MB, 1 << 34).unwrap();
    let (b0, hello_b) = handshake_responder(&hello_a, b.store.get_max_memory(), 1 << 33).unwrap();
    let (a1, auth_a) = a0.on_hello(&identity_a, &hello_b).unwrap();
    let b1 = b0.on_auth(&auth_a).unwrap();

    assert!(b1.needs_consent(&b.trust));
    let a1 = match a1.on_reply(&consent_required_frame()).unwrap() {
        InitiatorStep::WaitForConsent(waiting) => waiting,
        InitiatorStep::Done(_) => panic!("nothing is done while consent is pending"),
    };
    assert!(a.peers.handshake_event(ADDR_B, HandshakeEvent::ConsentRequired, 2));
    assert_eq!(state_of(&mut a, ADDR_B), "waiting_consent");
    b.consent.request_consent(
        "session".to_string(),
        b1.get_peer_key().clone(),
        b1.get_peer_name().clone(),
        b1.get_peer_quota(),
        2,
    );

    let decision = match b.handle_command(
        SdkCommand::ConsentApprove { session_id: "session".to_string(), trust_always: true },
        3,
    ) {
        Outcome::Publish { decision, reply: SdkResponse::Success, .. } => decision,
        other => panic!("unexpected: {:?}", other),
    };
    let (session_b, auth_b) = match b1.finish(&identity_b, Some(decision), &mut b.trust, 3) {
        ResponderStep::Accepted { session, frame } => (session, frame),
        ResponderStep::Refused { error, .. } => panic!("refused: {:?}", error),
    };
    let session_a = match a1.on_reply(&auth_b).unwrap() {
        InitiatorStep::Done(session) => session,
        InitiatorStep::WaitForConsent(_) => panic!("the answer is final"),
    };
    assert!(a.peers.handshake_event(ADDR_B, HandshakeEvent::Completed, 4));
    assert_eq!(state_of(&mut a, ADDR_B), "connected");

    let trusted = b.trust.list_trusted();
    assert_eq!(trusted.len(), 1);
    assert_eq!(trusted[0].public_key, hex_of(&identity_a.public_key()));
    assert_eq!(trusted[0].name, "a");
    assert!(a.trust.list_trusted().is_empty());

    let allowed_on_b = b.store.get_max_memory();
    a.peers.register_authenticated_peer(
        session_a.peer_id,
        ADDR_B.to_string(),
        session_a.peer_name.clone(),
        MB,
        session_a.peer_total_memory,
        session_a.peer_quota,
    );
    b.peers.register_authenticated_peer(
        session_b.peer_id,
        ADDR_A.to_string(),
        session_b.peer_name.clone(),
        allowed_on_b,
        session_b.peer_total_memory,
        session_b.peer_quota,
    );
    TwoNodes {
        a,
        b,
        a_writer: SecureWriter::from_raw(&session_a.send_key),
        a_reader: SecureReader::new(&session_a.recv_key),
        b_writer: SecureWriter::from_raw(&session_b.send_key),
        b_reader: SecureReader::new(&session_b.recv_key),
    }
}

impl TwoNodes {
    fn a_sends(&mut self, msg: &Message) -> FrameOutcome {
        let frame = self.a_writer.send_frame(&encode(msg)).unwrap();
        handle_connection_split(
            &mut self.b_reader,
            &mut self.b_writer,
            &mut self.b.store,
            &mut self.b.peers,
            A,
            &frame[4..],
            10,
        )
    }

    fn a_receives(&mut self, frame: &[u8]) -> FrameOutcome {
        handle_connection_split(
            &mut self.a_reader,
            &mut self.a_writer,
            &mut self.a.store,
            &mut self.a.peers,
            B,
            &frame[4..],
            10,
        )
    }
}

#[test]
fn two_node_first_contact() {
    let nodes = first_contact();
    assert_eq!(nodes.a.peers.get_peer(B).unwrap().name, "b");
    assert_eq!(nodes.a.peers.get_peer(B).unwrap().remote_quota, MB);
    assert_eq!(nodes.b.peers.get_peer(A).unwrap().name, "a");
    assert_eq!(nodes.b.peers.get_peer(A).unwrap().ram_quota, MB);
    assert_eq!(nodes.b.peers.get_peer(A).unwrap().remote_quota, MB);
    assert_eq!(nodes.a.peers.peer_count(), 1);
}

#[test]
fn remote_key_write() {
    let mut nodes = first_contact();
    let set = SdkCommand::SetKey {
        key: "greeting".to_string(),
        data: b"hi".to_vec(),
        target: Some("b".to_string()),
        durability: Some(Durability::Pinned),
    };
    let (key, request) = match nodes.a.handle_command(set, 5) {
        Outcome::WriteKeyOnPeer { peer, key, request } => {
            assert_eq!(peer, B);
            (key, request)
        }
        other => panic!("unexpected: {:?}", other),
    };
    let at_b = nodes.a_sends(&request);
    let at_a = nodes.a_receives(&at_b.reply.unwrap());
    let y = match at_a.delivery {
        Some(memcloud::net::Delivery::KeyStored { key, id }) => {
            assert_eq!(key, "greeting");
            id
        }
        other => panic!("unexpected: {:?}", other),
    };
    match nodes.a.finish_remote_set(key, B, Some(y)) {
        SdkResponse::Stored { id } => assert_eq!(id, y),
        other => panic!("unexpected: {:?}", other),
    }

    let request = match nodes.a.handle_command(
        SdkCommand::Get { key: "greeting".to_string(), target: None },
        6,
    ) {
        Outcome::AskPeers { peers, request, .. } => {
            assert_eq!(peers, vec![B]);
            request
        }
        other => panic!("unexpected: {:?}", other),
    };
    let at_b = nodes.a_sends(&request);
    let at_a = nodes.a_receives(&at_b.reply.unwrap());
    let value = match at_a.delivery {
        Some(memcloud::net::Delivery::Key { data, .. }) => Some(data),
        other => panic!("unexpected: {:?}", other),
    };
    assert!(matches!(finish_get(value), SdkResponse::Loaded { data } if data == b"hi".to_vec()));

    match nodes.b.handle_command(SdkCommand::Get { key: "greeting".to_string(), target: None }, 7) {
        Outcome::Reply(SdkResponse::Loaded { data }) => assert_eq!(data, b"hi".to_vec()),
        other => panic!("unexpected: {:?}", other),
    }
    assert_eq!(nodes.b.peers.get_peer(A).unwrap().remote_used_storage, 2);
}

#[test]
fn quota_rejection() {
    let mut nodes = first_contact();
    let store = SdkCommand::StoreRemote {
        data: vec![7u8; MB as usize + 1],
        target: Some("b".to_string()),
        durability: None,
    };
    let (id, size, request) = match nodes.a.handle_command(store, 5) {
        Outcome::StoreOnPeer { peer, id, size, request } => {
            assert_eq!(peer, B);
            (id, size, request)
        }
        other => panic!("unexpected: {:?}", other),
    };
    let at_b = nodes.a_sends(&request);
    assert!(at_b.reply.is_none() && !at_b.close);
    assert_eq!(nodes.b.peers.get_peer(A).unwrap().remote_used_storage, 0);
    assert!(nodes.b.store.get_block(id).unwrap().is_none());
    assert!(matches!(nodes.a.finish_remote_store(id, B, size, true), SdkResponse::Stored { .. }));

    let request = match nodes.a.handle_command(SdkCommand::Load { id }, 6) {
        Outcome::FetchBlock { request, .. } => request,
        other => panic!("unexpected: {:?}", other),
    };
    let at_b = nodes.a_sends(&request);
    let at_a = nodes.a_receives(&at_b.reply.unwrap());
    let answer = match at_a.delivery {
        Some(Delivery::Block { id: answered, data }) => {
            assert_eq!(answered, id);
            data
        }
        other => panic!("unexpected: {:?}", other),
    };
    assert_eq!(answer, None);
    match finish_load(Some(answer)) {
        SdkResponse::Error { msg } => assert_eq!(msg, "Block not found"),
        other => panic!("unexpected: {:?}", other),
    }

    let exact = SdkCommand::StoreRemote {
        data: vec![7u8; MB as usize],
        target: Some("b".to_string()),
        durability: None,
    };
    let (id, request) = match nodes.a.handle_command(exact, 7) {
        Outcome::StoreOnPeer { id, request, .. } => (id, request),
        other => panic!("unexpected: {:?}", other),
    };
    let _ = nodes.a_sends(&request);
    assert_eq!(nodes.b.peers.get_peer(A).unwrap().remote_used_storage, MB);
    assert_eq!(nodes.b.store.get_block(id).unwrap().unwrap().data.len(), MB as usize);
}

#[test]
fn tampering() {
    let mut nodes = first_contact();
    let mut frame = nodes.a_writer.send_frame(&encode(&Message::GetBlock { id: 1 })).unwrap();
    frame[9] ^= 0x40;
    let at_b = handle_connection_split(
        &mut nodes.b_reader,
        &mut nodes.b_writer,
        &mut nodes.b.store,
        &mut nodes.b.peers,
        A,
        &frame[4..],
        10,
    );
    assert!(at_b.close && at_b.reply.is_none());
    match nodes.b.handle_command(SdkCommand::ListPeers, 11) {
        Outcome::Reply(SdkResponse::PeerList { peers }) => assert!(peers.is_empty()),
        other => panic!("unexpected: {:?}", other),
    }
    memcloud::net::connection_closed(&mut nodes.a.store, &mut nodes.a.peers, B);
    match nodes.a.handle_command(SdkCommand::ListPeers, 11) {
        Outcome::Reply(SdkResponse::PeerList { peers }) => assert!(peers.is_empty()),
        other => panic!("unexpected: {:?}", other),
    }
    let next = nodes.a_writer.send_frame(&encode(&Message::Ack)).unwrap();
    let again = handle_connection_split(
        &mut nodes.b_reader,
        &mut nodes.b_writer,
        &mut nodes.b.store,
        &mut nodes.b.peers,
        A,
        &next[4..],
        10,
    );
    assert!(again.close);
}

#[test]
fn cache_block_larger_than_memory_evicts_nothing() {
    let mut store = InMemoryBlockManager::new(4);
    assert_eq!(
        store.put_block(
            Block { id: 1, data: vec![0; 2], durability: Durability::Cache, last_accessed: 1 },
        ),
        Ok(()),
    );
    assert_eq!(
        store.put_block(
            Block { id: 2, data: vec![0; 5], durability: Durability::Cache, last_accessed: 2 },
        ),
        Err(StoreError::MemoryLimit)
    );
    assert!(store.get_block(1).unwrap().is_some());
    assert_eq!(store.used_space(), 2);
}

#[test]
fn trust_store_is_restored_as_it_was_recorded() {
    let mut trust = TrustedStore::new();
    let device = |key: &str, seen: u64| TrustedDevice {
        public_key: key.to_string(),
        name: "n".to_string(),
        first_seen: seen,
        last_approved: seen + 1,
    };
    assert!(trust.restore(device("aa", 5)));
    assert!(trust.restore(device("bb", 7)));
    assert!(!trust.restore(device("aa", 9)));
    let list = trust.list_trusted();
    assert_eq!(list.len(), 2);
    assert_eq!((list[0].first_seen, list[0].last_approved), (5, 6));
    assert!(trust.is_trusted("bb"));
}

fn chars(s: &str) -> Vec<char> {
    s.chars().collect()
}

#[test]
fn discovered_services_become_peers() {
    let own: u128 = 0x2a;
    let other = "12345678-9abc-def0-1234-56789abcdef0";
    let id = |s: &str| Some(Some(s.as_bytes().to_vec()));
    assert_eq!(
        discovered_peer(
            own,
            "12345678-9abc-def0-1234-56789abcdef0._memcloud._tcp.local.",
            id(other),
            &vec![false, true, true],
        ),
        Some((0x1234_5678_9abc_def0_1234_5678_9abc_def0, 1))
    );
    assert_eq!(
        discovered_peer(own, "x._memcloud._tcp.local.", id(other), &vec![false, false]).map(
            |r| r.1,
        ),
        Some(0),
    );
    assert_eq!(
        discovered_peer(own, "x._memcloud._tcp.local.", id(other), &vec![true]).map(|r| r.1),
        Some(0),
    );
    assert_eq!(
        discovered_peer(
            own,
            "00000000-0000-0000-0000-00000000002a._memcloud._tcp.local.",
            id(other),
            &vec![true],
        ),
        None,
    );
    assert_eq!(discovered_peer(own, "x._memcloud._tcp.local.", None, &vec![true]), None);
    assert_eq!(discovered_peer(own, "x._memcloud._tcp.local.", Some(None), &vec![true]), None);
    assert_eq!(
        discovered_peer(own, "x._memcloud._tcp.local.", Some(Some(vec![0xff, 0xfe])), &vec![true]),
        None,
    );
    assert_eq!(discovered_peer(own, "x._memcloud._tcp.local.", id("not an id"), &vec![true]), None);
    assert_eq!(discovered_peer(own, "x._memcloud._tcp.local.", id(other), &vec![]), None);
    assert!(find_text(&chars("memcloud"), &chars("clo")));
    assert!(find_text(&chars("memcloud"), &chars("")));
    assert!(!find_text(&chars("memcloud"), &chars("cloudy")));
    assert!(!find_text(&chars(""), &chars("x")));
}
