use memcloud::auth::Identity;
use memcloud::bytes::copy_bytes;
use memcloud::bytes::hex_encode;
use memcloud::client::target_peer_string;
use memcloud::consent::ConsentManager;
use memcloud::peers::metadata_of;
use memcloud::peers::PeerInfo;
use memcloud::peers::PeerManager;
use memcloud::rpc::Node;
use memcloud::rpc::SdkCommand;
use memcloud::size::chars_of;
use memcloud::size::parse_size;
use memcloud::size::size_from_chars;
use memcloud::size::SizeError;
use memcloud::wire::put_bytes;
use memcloud::wire::put_opt_bytes;
use memcloud::wire::put_text;
use memcloud::wire::Reader;

fn letters(text: &str) -> Vec<char> {
    text.chars().collect()
}

#[test]
fn chars_are_listed_in_order() {
    assert_eq!(chars_of(""), Vec::<char>::new());
    assert_eq!(chars_of("1 kb"), vec!['1', ' ', 'k', 'b']);
    assert_eq!(chars_of("é1"), vec!['é', '1']);
}

#[test]
fn size_of_trimmed_lower_case_text() {
    assert_eq!(size_from_chars(&letters("")).unwrap(), 0);
    assert_eq!(size_from_chars(&letters("7")).unwrap(), 7);
    assert_eq!(size_from_chars(&letters("7b")).unwrap(), 7);
    assert_eq!(size_from_chars(&letters("7k")).unwrap(), 7 * 1024);
    assert_eq!(size_from_chars(&letters("7 mb")).unwrap(), 7 * 1024 * 1024);
    assert_eq!(size_from_chars(&letters("1gb")).unwrap(), 1 << 30);
    assert_eq!(size_from_chars(&letters("1tb")).unwrap(), 1u64 << 40);
}

#[test]
fn size_of_text_that_is_no_size() {
    assert!(matches!(size_from_chars(&letters("mb")), Err(SizeError::InvalidNumber)));
    assert!(matches!(size_from_chars(&letters("٣kb")), Err(SizeError::InvalidNumber)));
    assert!(matches!(size_from_chars(&letters("16777216tb")), Err(SizeError::Overflow)));
    match size_from_chars(&letters("7KB")) {
        Err(SizeError::InvalidSuffix { suffix }) => assert_eq!(suffix, "KB"),
        other => panic!("unexpected: {:?}", other),
    }
    match size_from_chars(&letters("7 kilobytes")) {
        Err(SizeError::InvalidSuffix { suffix }) => assert_eq!(suffix, " kilobytes"),
        other => panic!("unexpected: {:?}", other),
    }
}

#[test]
fn target_of_a_command_is_passed_on() {
    assert_eq!(target_peer_string(None), None);
    assert_eq!(target_peer_string(Some("laptop".to_string())), Some("laptop".to_string()));
}

#[test]
fn registry_keeps_the_identity_it_was_made_with() {
    let identity = Identity::from_secret([7u8; 32], 42, "desk".to_string());
    let peers = PeerManager::with_identity(identity);
    assert_eq!(peers.get_self_id(), 42);
    assert_eq!(peers.get_self_name(), "desk");
    assert_eq!(peers.get_identity().keypair, [7u8; 32]);
    assert_eq!(peers.get_identity().node_id, 42);
    assert_eq!(peers.peer_count(), 0);
    assert!(peers.list_peers().is_empty());
}

#[test]
fn metadata_shows_a_peer_to_clients() {
    let info = PeerInfo {
        id: 0xb,
        addr: "10.0.0.2:8080".to_string(),
        name: "b".to_string(),
        total_memory: 1 << 30,
        used_memory: 12,
        ram_quota: 4096,
        remote_chunk_size: 0,
        remote_quota: 2048,
        remote_used_storage: 100,
    };
    let meta = metadata_of(&info);
    assert_eq!(meta.id, "00000000-0000-0000-0000-00000000000b");
    assert_eq!(meta.name, "b");
    assert_eq!(meta.addr, "10.0.0.2:8080");
    assert_eq!(meta.total_memory, 1 << 30);
    assert_eq!(meta.used_memory, 12);
    assert_eq!(meta.quota, 2048);
    assert_eq!(meta.allowed_quota, 4096);
}

#[test]
fn taken_request_leaves_the_others_in_order() {
    let mut consent = ConsentManager::new();
    consent.request_consent("s1".to_string(), "k1".to_string(), "one".to_string(), 1, 10);
    consent.request_consent("s2".to_string(), "k2".to_string(), "two".to_string(), 2, 11);
    consent.request_consent("s3".to_string(), "k3".to_string(), "three".to_string(), 3, 12);
    assert!(consent.take_request("s4").is_none());
    let taken = consent.take_request("s2").unwrap();
    assert_eq!(taken.session_id, "s2");
    assert_eq!(taken.peer_pubkey, "k2");
    assert_eq!(taken.peer_name, "two");
    assert_eq!(taken.quota, 2);
    assert_eq!(taken.created_at, 11);
    let left: Vec<String> = consent.get_pending_list().into_iter().map(|p| p.session_id).collect();
    assert_eq!(left, vec!["s1".to_string(), "s3".to_string()]);
    assert!(consent.take_request("s2").is_none());
}

#[test]
fn bytes_are_copied() {
    assert_eq!(copy_bytes(&[]), Vec::<u8>::new());
    assert_eq!(copy_bytes(&[1, 2, 3]), vec![1, 2, 3]);
}

#[test]
fn byte_strings_and_texts_follow_their_length() {
    let mut out = vec![0xff];
    put_bytes(&mut out, b"ab");
    assert_eq!(out, vec![0xff, 0, 0, 0, 0, 0, 0, 0, 2, b'a', b'b']);
    let mut out = Vec::new();
    put_text(&mut out, "é");
    assert_eq!(out, vec![0, 0, 0, 0, 0, 0, 0, 2, 0xc3, 0xa9]);
    let mut out = Vec::new();
    put_opt_bytes(&mut out, &None);
    put_opt_bytes(&mut out, &Some(vec![9]));
    assert_eq!(out, vec![0, 1, 0, 0, 0, 0, 0, 0, 0, 1, 9]);
}

#[test]
fn reader_takes_thirty_two_bytes_or_nothing() {
    let mut bytes: Vec<u8> = (0u8..40).collect();
    let mut reader = Reader::new(&bytes);
    let first = reader.array32().unwrap();
    assert_eq!(first.to_vec(), (0u8..32).collect::<Vec<u8>>());
    assert!(reader.array32().is_none());
    assert_eq!(reader.u8(), Some(32));
    bytes.truncate(31);
    let mut reader = Reader::new(&bytes);
    assert!(reader.array32().is_none());
    assert!(!reader.at_end());
}

#[test]
fn bytes_are_written_in_lower_case_hexadecimal() {
    assert_eq!(hex_encode(&[]), "");
    assert_eq!(hex_encode(&[0x00, 0x0f, 0xa5, 0xff]), "000fa5ff");
    let all: Vec<u8> = (0u8..=255).collect();
    assert_eq!(hex_encode(&all), hex::encode(&all));
}

#[test]
fn white_space_is_what_unicode_counts_as_such() {
    assert_eq!(parse_size("\u{a0}1kb\u{3000}").unwrap(), 1024);
    assert_eq!(parse_size("\t\n\u{b}\u{c}\r 2 \u{85}").unwrap(), 2);
    assert_eq!(parse_size("3\u{1680}\u{2000}\u{200a}mb\u{2028}\u{2029}").unwrap(), 3 << 20);
    assert_eq!(parse_size("\u{202f}\u{205f}4").unwrap(), 4);
    assert!(matches!(parse_size("\u{200b}5"), Err(SizeError::InvalidNumber)));
    assert!(matches!(parse_size("5\u{180e}kb"), Err(SizeError::InvalidSuffix { .. })));
    assert!(matches!(parse_size("\u{1c}5"), Err(SizeError::InvalidNumber)));
}

#[test]
fn white_space_list_agrees_with_the_standard_library() {
    let listed = |c: char| {
        matches!(
            c,
            '\u{9}'..='\u{d}'
                | ' '
                | '\u{85}'
                | '\u{a0}'
                | '\u{1680}'
                | '\u{2000}'..='\u{200a}'
                | '\u{2028}'
                | '\u{2029}'
                | '\u{202f}'
                | '\u{205f}'
                | '\u{3000}'
        )
    };
    for code in 0u32..=0x10ffff {
        if let Some(c) = char::from_u32(code) {
            assert_eq!(c.is_whitespace(), listed(c), "{:x}", code);
            if code < 128 {
                assert_eq!(c.is_numeric(), c.is_ascii_digit(), "{:x}", code);
                let lower = c.to_string().to_lowercase();
                assert_eq!(lower, c.to_ascii_lowercase().to_string(), "{:x}", code);
            }
        }
    }
    let ascii: String = (0u8..128).map(|b| b as char).collect();
    assert_eq!(ascii.to_lowercase(), ascii.to_ascii_lowercase());
}

#[test]
fn new_node_holds_nothing_and_opens_uploads() {
    let identity = Identity::from_secret([9u8; 32], 77, "seventy-seven".to_string());
    let mut node = Node::with_identity(identity, 64);
    assert_eq!(node.peers.get_self_id(), 77);
    assert_eq!(node.peers.get_self_name(), "seventy-seven");
    assert_eq!(node.peers.get_identity().keypair, [9u8; 32]);
    assert_eq!(node.store.get_max_memory(), 64);
    assert_eq!(node.store.block_count(), 0);
    assert_eq!(node.peers.peer_count(), 0);
    assert!(node.trust.list_trusted().is_empty());
    assert!(node.consent.get_pending_list().is_empty());
    for fresh in [0u64, 1, u64::MAX] {
        let mut new = Node::new(1, "n".to_string(), 8).unwrap();
        let out = new.handle_command_with(SdkCommand::StreamStart { size_hint: None }, 1, fresh);
        match out {
            memcloud::rpc::Outcome::Reply(memcloud::rpc::SdkResponse::StreamStarted {
                stream_id,
            }) => assert_eq!(stream_id, fresh),
            other => panic!("unexpected: {:?}", other),
        }
    }
    let id = node.store.start_stream(None).unwrap();
    assert_eq!(node.store.append_stream(id, vec![1, 2]), Ok(()));
    assert_eq!(node.store.finalize_stream(id), Ok(vec![1, 2]));
}
