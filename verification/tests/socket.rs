use memcloud::blocks::Durability;
use memcloud::consent::PendingConsent;
use memcloud::control::decode_command;
use memcloud::control::decode_response;
use memcloud::control::encode_command;
use memcloud::control::encode_response;
use memcloud::pack::same_text;
use memcloud::pack::Packer;
use memcloud::pack::Sized;
use memcloud::pack::Unpacker;
use memcloud::peers::PeerMetadata;
use memcloud::rpc::SdkCommand;
use memcloud::rpc::SdkResponse;
use memcloud::trust::TrustedDevice;

fn text(s: &str) -> Vec<u8> {
    rmp_serde::to_vec(s).unwrap()
}

fn number(n: u64) -> Vec<u8> {
    rmp_serde::to_vec(&n).unwrap()
}

fn binary(b: &[u8]) -> Vec<u8> {
    rmp_serde::to_vec(serde_bytes::Bytes::new(b)).unwrap()
}

fn nil() -> Vec<u8> {
    rmp_serde::to_vec(&Option::<u64>::None).unwrap()
}

fn join(parts: &[Vec<u8>]) -> Vec<u8> {
    parts.concat()
}

fn cmd_again(c: &SdkCommand) -> SdkCommand {
    decode_command(&encode_command(c).unwrap()).unwrap()
}

fn res_again(r: &SdkResponse) -> SdkResponse {
    decode_response(&encode_response(r).unwrap()).unwrap()
}

#[test]
fn elements_are_written_as_messagepack_writes_them() {
    for n in [0u64, 1, 127, 128, 255, 256, 65535, 65536, 0xffff_ffff, 0x1_0000_0000, u64::MAX] {
        let mut p = Packer::new();
        p.uint(n);
        assert!(p.ok);
        assert_eq!(p.out, number(n));
        let mut u = Unpacker::new(&p.out);
        assert_eq!(u.uint(), Some(n));
        assert!(u.at_end());
    }
    for len in [0usize, 1, 31, 32, 255, 256, 65535, 65536] {
        let s = "x".repeat(len);
        let mut p = Packer::new();
        p.str(&s);
        assert_eq!(p.out, text(&s));
        let mut u = Unpacker::new(&p.out);
        assert_eq!(u.str(), Some(s));
        let b = vec![7u8; len];
        let mut p = Packer::new();
        p.bin(&b);
        assert_eq!(p.out, binary(&b));
        let mut u = Unpacker::new(&p.out);
        assert_eq!(u.bin(), Some(b));
    }
    let mut p = Packer::new();
    p.bool(true);
    p.bool(false);
    p.nil();
    p.opt_uint(Some(5));
    p.opt_str(&None);
    p.opt_str(&Some("é".to_string()));
    assert_eq!(p.out, join(&[vec![0xc3, 0xc2, 0xc0, 5, 0xc0], text("é")]));
    let mut u = Unpacker::new(&p.out);
    assert_eq!(u.bool(), Some(true));
    assert_eq!(u.bool(), Some(false));
    assert_eq!(u.opt_uint(), Some(None));
    assert_eq!(u.opt_uint(), Some(Some(5)));
    assert_eq!(u.opt_str(), Some(None));
    assert_eq!(u.opt_str(), Some(Some("é".to_string())));
    assert_eq!(u.bool(), None);
}

#[test]
fn headers_take_the_shortest_form() {
    let cases: [(Sized, usize, Vec<u8>); 8] = [
        (Sized::Table, 3, vec![0x83]),
        (Sized::Table, 16, vec![0xde, 0, 16]),
        (Sized::Array, 15, vec![0x9f]),
        (Sized::Array, 16, vec![0xdc, 0, 16]),
        (Sized::Array, 70000, vec![0xdd, 0, 1, 0x11, 0x70]),
        (Sized::Text, 31, vec![0xbf]),
        (Sized::Text, 32, vec![0xd9, 32]),
        (Sized::Binary, 0, vec![0xc4, 0]),
    ];
    for (kind, n, bytes) in cases {
        let mut p = Packer::new();
        p.len(kind, n);
        assert_eq!(p.out, bytes);
        let mut u = Unpacker::new(&bytes);
        assert_eq!(u.len(kind), Some(n as u32));
    }
    let mut u = Unpacker::new(&[0xd9]);
    assert_eq!(u.len(Sized::Text), None);
    let mut u = Unpacker::new(&[0xa1]);
    assert_eq!(u.str(), None);
    let mut u = Unpacker::new(&[0xa1, 0xff]);
    assert_eq!(u.str(), None);
    assert!(same_text("cmd", "cmd"));
    assert!(!same_text("cmd", "res"));
}

#[test]
fn command_is_a_map_with_its_name_first() {
    let store = SdkCommand::Store { data: b"hello".to_vec(), durability: None };
    assert_eq!(
        encode_command(&store).unwrap(),
        join(
            &[
                vec![0x83],
                text("cmd"),
                text("Store"),
                text("data"),
                binary(b"hello"),
                text("durability"),
                nil(),
            ],
        )
    );
    let load = SdkCommand::Load { id: 9007199254740993 };
    assert_eq!(
        encode_command(&load).unwrap(),
        join(&[vec![0x82], text("cmd"), text("Load"), text("id"), text("9007199254740993")])
    );
    let set = SdkCommand::SetKey {
        key: "greeting".to_string(),
        data: b"hi".to_vec(),
        target: Some("b".to_string()),
        durability: Some(Durability::Pinned),
    };
    assert_eq!(
        encode_command(&set).unwrap(),
        join(&[
            vec![0x85],
            text("cmd"),
            text("Set"),
            text("key"),
            text("greeting"),
            text("data"),
            binary(b"hi"),
            text("target"),
            text("b"),
            text("durability"),
            text("Pinned"),
        ])
    );
    assert_eq!(
        encode_command(&SdkCommand::Stat).unwrap(),
        join(&[vec![0x81], text("cmd"), text("Stat")]),
    );
    let chunk = SdkCommand::StreamChunk { stream_id: 300, chunk_seq: 7, data: vec![1] };
    assert_eq!(
        encode_command(&chunk).unwrap(),
        join(
            &[
                vec![0x84],
                text("cmd"),
                text("StreamChunk"),
                text("stream_id"),
                number(300),
                text("chunk_seq"),
                number(7),
                text("data"),
                binary(&[1]),
            ],
        )
    );
}

#[test]
fn messagepack_readers_understand_what_is_written() {
    let connect = encode_command(
        &SdkCommand::Connect { addr: "10.0.0.2:8080".to_string(), quota: Some(1048576) },
    ).unwrap();
    let seen: serde_json::Value = rmp_serde::from_slice(&connect).unwrap();
    assert_eq!(seen["cmd"], serde_json::Value::from("Connect"));
    assert_eq!(seen["addr"], serde_json::Value::from("10.0.0.2:8080"));
    assert_eq!(seen["quota"], serde_json::Value::from(1048576u64));
    let stored = encode_response(&SdkResponse::Stored { id: u64::MAX }).unwrap();
    let seen: serde_json::Value = rmp_serde::from_slice(&stored).unwrap();
    assert_eq!(seen["res"], serde_json::Value::from("Stored"));
    assert_eq!(seen["id"], serde_json::Value::from("18446744073709551615"));
    let peers = encode_response(
        &SdkResponse::PeerList { peers: vec![peer("x"), peer("y")] },
    ).unwrap();
    let seen: serde_json::Value = rmp_serde::from_slice(&peers).unwrap();
    assert_eq!(seen["peers"][1]["name"], serde_json::Value::from("y"));
    assert_eq!(seen["peers"][0]["allowed_quota"], serde_json::Value::from(4u64));
}

fn peer(name: &str) -> PeerMetadata {
    PeerMetadata {
        id: "00000000-0000-0000-0000-00000000002a".to_string(),
        name: name.to_string(),
        addr: "10.0.0.1:8080".to_string(),
        total_memory: 1,
        used_memory: 2,
        quota: 3,
        allowed_quota: 4,
    }
}

#[test]
fn every_command_survives_the_socket() {
    let t = || Some("peer".to_string());
    let all = vec![
        SdkCommand::Store { data: vec![1, 2], durability: Some(Durability::Cache) },
        SdkCommand::StoreRemote { data: vec![], target: t(), durability: None },
        SdkCommand::Load { id: 0 },
        SdkCommand::Free { id: u64::MAX },
        SdkCommand::ListPeers,
        SdkCommand::Connect { addr: "a:1".to_string(), quota: None },
        SdkCommand::UpdatePeerQuota { peer_id: "p".to_string(), quota: 1 << 40 },
        SdkCommand::Disconnect { peer_id: "p".to_string() },
        SdkCommand::SetKey {
            key: "k".to_string(),
            data: vec![0; 300],
            target: None,
            durability: Some(Durability::Pinned),
        },
        SdkCommand::Get { key: "k".to_string(), target: t() },
        SdkCommand::ListKeys { pattern: "*".to_string() },
        SdkCommand::Stat,
        SdkCommand::PollConnection { addr: "a:1".to_string() },
        SdkCommand::StreamStart { size_hint: Some(3) },
        SdkCommand::StreamChunk { stream_id: 7, chunk_seq: u32::MAX, data: vec![9] },
        SdkCommand::StreamFinish { stream_id: 7, target: None, durability: None },
        SdkCommand::Flush { target: t() },
        SdkCommand::TrustList,
        SdkCommand::TrustRemove { key_or_name: "x".to_string() },
        SdkCommand::ConsentList,
        SdkCommand::ConsentApprove { session_id: "s".to_string(), trust_always: true },
        SdkCommand::ConsentDeny { session_id: "s".to_string() },
    ];
    for c in &all {
        assert_eq!(format!("{:?}", cmd_again(c)), format!("{:?}", c));
    }
}

#[test]
fn every_answer_survives_the_socket() {
    let all = vec![
        SdkResponse::Stored { id: 1 << 60 },
        SdkResponse::Loaded { data: b"hello".to_vec() },
        SdkResponse::Success,
        SdkResponse::List { items: vec!["a".to_string(), "".to_string(), "ü".to_string()] },
        SdkResponse::List { items: (0..20).map(|i| i.to_string()).collect() },
        SdkResponse::PeerList { peers: vec![peer("x"), peer("y")] },
        SdkResponse::PeerList { peers: vec![] },
        SdkResponse::PeerConnected { metadata: peer("z") },
        SdkResponse::Error { msg: "Block not found".to_string() },
        SdkResponse::Status { blocks: 1, peers: 2, memory_usage: 1 << 30 },
        SdkResponse::StreamStarted { stream_id: 5 },
        SdkResponse::FlushSuccess,
        SdkResponse::TrustedList {
            items: vec![
                TrustedDevice {
                    public_key: "aa".to_string(),
                    name: "n".to_string(),
                    first_seen: 1,
                    last_approved: 2,
                },
            ],
        },
        SdkResponse::ConsentList {
            items: vec![PendingConsent {
                session_id: "s".to_string(),
                peer_pubkey: "aa".to_string(),
                peer_name: "n".to_string(),
                quota: 9,
                created_at: 100,
            }],
        },
        SdkResponse::ConnectionStatus { state: "failed".to_string(), msg: Some("why".to_string()) },
        SdkResponse::ConnectionStatus { state: "pending".to_string(), msg: None },
    ];
    for r in &all {
        assert_eq!(format!("{:?}", res_again(r)), format!("{:?}", r));
    }
}

#[test]
fn longer_forms_of_numbers_and_texts_are_read_too() {
    let wide = join(&[
        vec![0xde, 0, 2],
        vec![0xd9, 3],
        b"cmd".to_vec(),
        vec![0xda, 0, 4],
        b"Load".to_vec(),
        vec![0xdb, 0, 0, 0, 2],
        b"id".to_vec(),
        vec![0xd9, 2],
        b"42".to_vec(),
    ]);
    assert!(matches!(decode_command(&wide), Some(SdkCommand::Load { id: 42 })));
    let quota = join(
        &[
            vec![0x83],
            text("cmd"),
            text("UpdatePeerQuota"),
            text("peer_id"),
            text("p"),
            text("quota"),
            vec![0xcf, 0, 0, 0, 0, 0, 0, 0, 5],
        ],
    );
    assert!(matches!(decode_command(&quota), Some(SdkCommand::UpdatePeerQuota { quota: 5, .. })));
}

#[test]
fn broken_commands_are_refused() {
    let good = encode_command(&SdkCommand::Load { id: 5 }).unwrap();
    assert!(decode_command(&good).is_some());
    assert!(decode_command(&good[..good.len() - 1]).is_none());
    let mut long = good.clone();
    long.push(0);
    assert!(decode_command(&long).is_none());
    assert!(decode_command(&[]).is_none());
    assert!(decode_command(&join(&[vec![0x81], text("cmd"), text("Nothing")])).is_none());
    assert!(decode_command(&join(&[vec![0x82], text("cmd"), text("Stat")])).is_none());
    assert!(
        decode_command(
            &join(&[vec![0x82], text("cmd"), text("Load"), text("id"), number(5)]),
        ).is_none(),
    );
    assert!(
        decode_command(
            &join(&[vec![0x82], text("cmd"), text("Load"), text("id"), text("5x")]),
        ).is_none(),
    );
    assert!(
        decode_command(
            &join(&[vec![0x82], text("cmd"), text("Load"), text("ID"), text("5")]),
        ).is_none(),
    );
    assert!(
        decode_command(
            &join(&[vec![0x82], text("res"), text("Load"), text("id"), text("5")]),
        ).is_none(),
    );
    assert!(
        decode_command(
            &join(
                &[
                    vec![0x83],
                    text("cmd"),
                    text("Store"),
                    text("data"),
                    binary(b"x"),
                    text("durability"),
                    text("Maybe"),
                ],
            ),
        ).is_none(),
    );
    assert!(
        decode_command(
            &join(
                &[
                    vec![0x84],
                    text("cmd"),
                    text("StreamChunk"),
                    text("stream_id"),
                    number(1),
                    text("chunk_seq"),
                    number(1 << 32),
                    text("data"),
                    binary(b""),
                ],
            ),
        ).is_none(),
    );
    assert!(decode_response(&good).is_none());
    assert!(
        decode_response(
            &join(
                &[
                    vec![0x82],
                    text("res"),
                    text("List"),
                    text("items"),
                    vec![0x92],
                    text("only one"),
                ],
            ),
        ).is_none(),
    );
}
