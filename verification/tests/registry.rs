use memcloud::consent::decision_for;
use memcloud::consent::is_approval;
use memcloud::consent::ConsentDecision;
use memcloud::consent::ConsentError;
use memcloud::consent::ConsentManager;
use memcloud::net::Message;
use memcloud::peers::advance;
use memcloud::peers::ConnectPlan;
use memcloud::peers::HandshakeEvent;
use memcloud::peers::HandshakeState;
use memcloud::peers::PeerError;
use memcloud::peers::PeerManager;
use memcloud::trust::TrustedStore;

const A: u128 = 0x0000_0000_0000_0000_0000_0000_0000_002a;
const B: u128 = 0x1234_5678_9abc_def0_1234_5678_9abc_def0;

fn registry() -> PeerManager {
    let mut pm = PeerManager::new(1, "self".to_string()).unwrap();
    pm.register_authenticated_peer(
        A,
        "10.0.0.1:8080".to_string(),
        "alpha".to_string(),
        1000,
        1 << 30,
        500,
    );
    pm.register_authenticated_peer(
        B,
        "10.0.0.2:8080".to_string(),
        "beta".to_string(),
        0,
        1 << 20,
        4000,
    );
    pm
}

#[test]
fn registry_knows_itself() {
    let pm = PeerManager::new(7, "seven".to_string()).unwrap();
    assert_eq!(pm.get_self_id(), 7);
    assert_eq!(pm.get_self_name(), "seven");
    assert_eq!(pm.get_identity().node_id, 7);
    assert_eq!(pm.get_identity().name, "seven");
    assert!(pm.peer_ids().is_empty());
    assert!(pm.list_peers().is_empty());
}

#[test]
fn registered_peer_starts_with_nothing_stored() {
    let mut pm = PeerManager::new(1, "self".to_string()).unwrap();
    let meta = pm.register_authenticated_peer(
        A,
        "10.0.0.1:8080".to_string(),
        "alpha".to_string(),
        1000,
        77,
        500,
    );
    assert_eq!(meta.id, "00000000-0000-0000-0000-00000000002a");
    assert_eq!(meta.name, "alpha");
    assert_eq!(meta.addr, "10.0.0.1:8080");
    assert_eq!(
        (meta.total_memory, meta.used_memory, meta.quota, meta.allowed_quota),
        (77, 0, 500, 1000),
    );
    let info = pm.get_peer(A).unwrap();
    assert_eq!(
        (info.id, info.ram_quota, info.remote_quota, info.remote_used_storage),
        (A, 1000, 500, 0),
    );
    assert!(pm.is_connected(A));
    assert!(!pm.is_connected(B));
}

#[test]
fn quota_fills_to_the_last_byte_and_no_further() {
    let mut pm = registry();
    assert!(pm.try_reserve_storage(A, 400));
    assert!(pm.try_reserve_storage(A, 600));
    assert_eq!(pm.get_peer(A).unwrap().remote_used_storage, 1000);
    assert!(!pm.try_reserve_storage(A, 1));
    assert_eq!(pm.get_peer(A).unwrap().remote_used_storage, 1000);
    assert!(pm.try_reserve_storage(A, 0));
    assert!(!pm.try_reserve_storage(B, 1));
    assert!(pm.try_reserve_storage(B, 0));
    assert!(!pm.try_reserve_storage(99, 0));

    let mut pm = registry();
    assert!(!pm.try_reserve_storage(A, 1001));
    assert!(!pm.try_reserve_storage(A, u64::MAX));
    assert!(pm.try_reserve_storage(A, 999));
    assert!(!pm.try_reserve_storage(A, u64::MAX));
    assert!(!pm.try_reserve_storage(A, 2));
    assert!(pm.try_reserve_storage(A, 1));
}

#[test]
fn release_stops_at_zero() {
    let mut pm = registry();
    assert!(pm.try_reserve_storage(A, 300));
    pm.release_storage(A, 100);
    assert_eq!(pm.get_peer(A).unwrap().remote_used_storage, 200);
    pm.release_storage(A, 500);
    assert_eq!(pm.get_peer(A).unwrap().remote_used_storage, 0);
    pm.release_storage(99, 5);
    assert_eq!(pm.peer_ids().len(), 2);
}

#[test]
fn usage_never_passes_quota() {
    let mut pm = registry();
    let sizes = [0u64, 1, 999, 1000, 1001, 5, 17, u64::MAX, 400, 400, 400];
    for (i, size) in sizes.iter().enumerate() {
        let _ = pm.try_reserve_storage(A, *size);
        if i % 3 == 2 {
            pm.release_storage(A, size / 2);
        }
        if i == 6 {
            let _ = pm.set_allowed_quota(A, 700);
        }
        let info = pm.get_peer(A).unwrap();
        assert!(info.remote_used_storage <= info.ram_quota);
    }
}

#[test]
fn allowed_quota_cannot_sink_below_usage() {
    let mut pm = registry();
    assert!(pm.try_reserve_storage(A, 300));
    assert!(matches!(pm.set_allowed_quota(A, 299), Err(PeerError::QuotaBelowUsage)));
    assert_eq!(pm.get_peer(A).unwrap().ram_quota, 1000);
    match pm.set_allowed_quota(A, 300) {
        Ok(Message::UpdateQuota { quota }) => assert_eq!(quota, 300),
        other => panic!("unexpected: {:?}", other),
    }
    assert_eq!(pm.get_peer(A).unwrap().ram_quota, 300);
    assert!(matches!(pm.set_allowed_quota(99, 5), Err(PeerError::NotFound)));
}

#[test]
fn peer_quota_update_changes_what_it_offers() {
    let mut pm = registry();
    assert!(pm.update_peer_ram_quota(A, 9));
    assert_eq!(pm.get_peer(A).unwrap().remote_quota, 9);
    assert_eq!(pm.get_peer(A).unwrap().ram_quota, 1000);
    assert!(!pm.update_peer_ram_quota(99, 9));
}

#[test]
fn peers_are_found_by_name_id_and_address() {
    let pm = registry();
    assert_eq!(pm.get_peer_id_by_name("alpha"), Some(A));
    assert_eq!(pm.get_peer_id_by_name("12345678-9abc-def0-1234-56789abcdef0"), Some(B));
    assert_eq!(pm.get_peer_id_by_name("123456789abcdef0123456789abcdef0"), Some(B));
    assert_eq!(pm.get_peer_id_by_name("gamma"), None);
    assert_eq!(pm.get_peer_id_by_name("00000000-0000-0000-0000-000000000001"), None);
    assert_eq!(pm.resolve_target("00000000-0000-0000-0000-000000000001"), Some(1));
    assert_eq!(pm.resolve_target("beta"), Some(B));
    assert_eq!(pm.resolve_target("nobody"), None);
    assert_eq!(pm.find_by_name("beta"), Some(B));
    assert_eq!(pm.find_by_addr("10.0.0.2:8080").unwrap().id, B);
    assert!(pm.find_by_addr("10.0.0.3:8080").is_none());
}

#[test]
fn discovered_peer_is_not_dialled_twice() {
    let pm = registry();
    match pm.add_discovered_peer(A, "10.9.9.9:1") {
        ConnectPlan::Known(meta) => assert_eq!(meta.name, "alpha"),
        ConnectPlan::Dial => panic!("the id is connected"),
    }
    match pm.add_discovered_peer(0, "10.0.0.2:8080") {
        ConnectPlan::Known(meta) => assert_eq!(meta.name, "beta"),
        ConnectPlan::Dial => panic!("the address is connected"),
    }
    assert!(matches!(pm.add_discovered_peer(0, "10.0.0.3:8080"), ConnectPlan::Dial));
}

#[test]
fn available_peer_offers_enough() {
    let mut pm = registry();
    assert_eq!(pm.get_available_peer(4000), Some(B));
    assert_eq!(pm.get_available_peer(4001), None);
    let small = pm.get_available_peer(500).unwrap();
    assert!(small == A || small == B);
    pm.note_stored_on_peer(B, 3900);
    assert_eq!(pm.get_peer(B).unwrap().used_memory, 3900);
    assert_eq!(pm.get_available_peer(500), Some(A));
    assert_eq!(pm.get_available_peer(501), None);
    pm.note_stored_on_peer(B, u64::MAX);
    assert_eq!(pm.get_peer(B).unwrap().used_memory, u64::MAX);
    assert_eq!(PeerManager::new(1, "x".to_string()).unwrap().get_available_peer(0), None);
}

#[test]
fn peers_are_listed_each_once() {
    let pm = registry();
    let mut ids = pm.peer_ids();
    ids.sort();
    assert_eq!(ids, vec![A, B]);
    let mut lines = pm.list_peers();
    lines.sort();
    assert_eq!(
        lines,
        vec![
            "00000000-0000-0000-0000-00000000002a (alpha) @ 10.0.0.1:8080".to_string(),
            "12345678-9abc-def0-1234-56789abcdef0 (beta) @ 10.0.0.2:8080".to_string(),
        ]
    );
    let mut names: Vec<String> = pm.get_peer_metadata_list().into_iter().map(|m| m.name).collect();
    names.sort();
    assert_eq!(names, vec!["alpha".to_string(), "beta".to_string()]);
}

#[test]
fn disconnect_forgets_the_peer() {
    let mut pm = registry();
    assert!(pm.disconnect_peer(A));
    assert!(!pm.disconnect_peer(A));
    assert!(pm.get_peer(A).is_none());
    assert!(pm.handle_peer_disconnect(B));
    assert!(!pm.handle_peer_disconnect(B));
    assert!(pm.peer_ids().is_empty());
}

#[test]
fn block_reply_is_delivered_once() {
    let mut pm = registry();
    assert_eq!(pm.satisfy_request(5, vec![1]), None);
    assert_eq!(pm.wait_for_block(5), 1);
    assert_eq!(pm.wait_for_block(5), 2);
    assert_eq!(pm.wait_for_block(6), 1);
    assert_eq!(pm.satisfy_request(5, vec![1, 2]), Some(vec![1, 2]));
    assert_eq!(pm.satisfy_request(5, vec![3]), None);
    assert_eq!(pm.satisfy_request(6, vec![4]), Some(vec![4]));
    assert!(!pm.satisfy_request_not_held(6));
    let _ = pm.wait_for_block(6);
    assert!(pm.satisfy_request_not_held(6));
    assert!(!pm.satisfy_request_not_held(6));
    assert_eq!(pm.satisfy_request(6, vec![4]), None);
}

#[test]
fn key_replies_are_delivered_once() {
    let mut pm = registry();
    assert_eq!(pm.wait_for_key("k"), 1);
    assert_eq!(pm.satisfy_key_request("other", vec![1]), None);
    assert_eq!(pm.satisfy_key_request("k", vec![1]), Some(vec![1]));
    assert_eq!(pm.satisfy_key_request("k", vec![2]), None);
    assert_eq!(pm.satisfy_key_store("k", 9), None);
    assert_eq!(pm.wait_for_key_store("k"), 1);
    assert_eq!(pm.satisfy_key_store("k", 9), Some(9));
    assert_eq!(pm.satisfy_key_store("k", 10), None);
}

#[test]
fn requests_to_peers_need_a_connection() {
    let pm = registry();
    assert!(matches!(pm.request_block(A, 3), Some(Message::GetBlock { id: 3 })));
    assert!(pm.request_block(99, 3).is_none());
    match pm.set_key_remote(A, "k".to_string(), vec![1]) {
        Some(Message::PutKey { key, data }) => assert_eq!((key.as_str(), data), ("k", vec![1])),
        other => panic!("unexpected: {:?}", other),
    }
    assert!(pm.set_key_remote(99, "k".to_string(), vec![1]).is_none());
    let (msg, mut targets) = pm.broadcast_get_key("k");
    targets.sort();
    assert_eq!(targets, vec![A, B]);
    assert!(matches!(msg, Message::GetKey { .. }));
    let (_, nobody) = PeerManager::new(1, "x".to_string()).unwrap().broadcast_get_key("k");
    assert!(nobody.is_empty());
}

#[test]
fn handshake_states_follow_events() {
    assert!(
        matches!(
            advance(HandshakeState::Connecting, HandshakeEvent::ConsentRequired),
            HandshakeState::WaitingForConsent,
        ),
    );
    assert!(
        matches!(
            advance(HandshakeState::Connecting, HandshakeEvent::Completed),
            HandshakeState::Authenticated,
        ),
    );
    assert!(
        matches!(
            advance(HandshakeState::WaitingForConsent, HandshakeEvent::Completed),
            HandshakeState::Authenticated,
        ),
    );
    match advance(HandshakeState::WaitingForConsent, HandshakeEvent::Failed("denied".to_string())) {
        HandshakeState::Failed(reason) => assert_eq!(reason, "denied"),
        other => panic!("unexpected: {:?}", other),
    }
    assert!(
        matches!(
            advance(HandshakeState::Authenticated, HandshakeEvent::Failed("late".to_string())),
            HandshakeState::Authenticated,
        ),
    );
    match advance(HandshakeState::Failed("first".to_string()), HandshakeEvent::Completed) {
        HandshakeState::Failed(reason) => assert_eq!(reason, "first"),
        other => panic!("unexpected: {:?}", other),
    }
}

#[test]
fn poll_reports_each_state_and_forgets_what_has_ended() {
    let mut pm = registry();
    assert_eq!(
        pm.poll_connection("1.2.3.4:5"),
        ("unknown".to_string(), Some("No active handshake found".to_string())),
    );
    pm.begin_handshake("1.2.3.4:5", 100);
    assert_eq!(pm.poll_connection("1.2.3.4:5"), ("pending".to_string(), None));
    assert_eq!(pm.poll_connection("1.2.3.4:5"), ("pending".to_string(), None));
    assert!(pm.handshake_event("1.2.3.4:5", HandshakeEvent::ConsentRequired, 101));
    assert_eq!(pm.poll_connection("1.2.3.4:5"), ("waiting_consent".to_string(), None));
    assert!(pm.handshake_event("1.2.3.4:5", HandshakeEvent::Completed, 102));
    assert_eq!(pm.poll_connection("1.2.3.4:5"), ("connected".to_string(), None));
    assert_eq!(pm.poll_connection("1.2.3.4:5").0, "unknown");
    assert!(!pm.handshake_event("1.2.3.4:5", HandshakeEvent::Completed, 103));

    pm.begin_handshake("6.6.6.6:6", 100);
    assert!(pm.handshake_event("6.6.6.6:6", HandshakeEvent::Failed("no route".to_string()), 101));
    assert_eq!(
        pm.poll_connection("6.6.6.6:6"),
        ("failed".to_string(), Some("no route".to_string())),
    );
    assert_eq!(pm.poll_connection("6.6.6.6:6").0, "unknown");
}

#[test]
fn finished_handshakes_expire_after_five_minutes() {
    let mut pm = registry();
    pm.begin_handshake("done", 0);
    pm.begin_handshake("failed", 0);
    pm.begin_handshake("slow", 0);
    pm.begin_handshake("recent", 0);
    assert!(pm.handshake_event("done", HandshakeEvent::Completed, 100));
    assert!(pm.handshake_event("failed", HandshakeEvent::Failed("x".to_string()), 100));
    assert!(pm.handshake_event("recent", HandshakeEvent::Completed, 101));
    pm.expire_handshakes(399);
    assert_eq!(pm.poll_connection("slow").0, "pending");
    pm.expire_handshakes(400);
    assert_eq!(pm.poll_connection("done").0, "unknown");
    assert_eq!(pm.poll_connection("failed").0, "unknown");
    assert_eq!(pm.poll_connection("slow").0, "pending");
    assert_eq!(pm.poll_connection("recent").0, "connected");
}

#[test]
fn consent_requests_wait_until_resolved() {
    let mut cm = ConsentManager::new();
    assert!(cm.get_pending_list().is_empty());
    cm.request_consent("s1".to_string(), "aa".to_string(), "alpha".to_string(), 10, 100);
    cm.request_consent("s2".to_string(), "bb".to_string(), "beta".to_string(), 20, 101);
    let list = cm.get_pending_list();
    assert_eq!(list.len(), 2);
    assert_eq!(
        (list[0].session_id.as_str(), list[0].peer_pubkey.as_str(), list[0].peer_name.as_str()),
        ("s1", "aa", "alpha"),
    );
    assert_eq!((list[0].quota, list[0].created_at), (10, 100));
    assert_eq!(list[1].session_id, "s2");

    assert_eq!(cm.resolve("nope", ConsentDecision::Denied), Err(ConsentError::UnknownSession));
    assert_eq!(
        cm.resolve("s1", ConsentDecision::ApprovedOnce),
        Ok(("s1".to_string(), ConsentDecision::ApprovedOnce)),
    );
    assert_eq!(cm.resolve("s1", ConsentDecision::ApprovedOnce), Err(ConsentError::UnknownSession));
    assert_eq!(cm.get_pending_list().len(), 1);
    assert_eq!(cm.get_pending_list()[0].session_id, "s2");
}

#[test]
fn repeated_consent_request_replaces_the_earlier_one() {
    let mut cm = ConsentManager::new();
    cm.request_consent("s1".to_string(), "aa".to_string(), "alpha".to_string(), 10, 100);
    cm.request_consent("s2".to_string(), "bb".to_string(), "beta".to_string(), 20, 101);
    cm.request_consent("s1".to_string(), "cc".to_string(), "gamma".to_string(), 30, 102);
    let list = cm.get_pending_list();
    assert_eq!(list.len(), 2);
    assert_eq!(
        (list[0].session_id.as_str(), list[0].peer_pubkey.as_str(), list[0].quota),
        ("s1", "cc", 30),
    );
}

#[test]
fn overdue_consent_requests_count_as_denied() {
    let mut cm = ConsentManager::new();
    cm.request_consent("old".to_string(), "aa".to_string(), "alpha".to_string(), 10, 100);
    cm.request_consent("new".to_string(), "bb".to_string(), "beta".to_string(), 20, 120);
    assert_eq!(cm.expire_one(129), None);
    assert_eq!(cm.expire_one(130), Some(("old".to_string(), ConsentDecision::Denied)));
    assert_eq!(cm.expire_one(130), None);
    assert_eq!(cm.get_pending_list().len(), 1);
    assert_eq!(cm.expire_one(150), Some(("new".to_string(), ConsentDecision::Denied)));
    assert!(cm.get_pending_list().is_empty());
}

#[test]
fn waiters_take_only_their_own_decision() {
    assert_eq!(decision_for("s1", "s1", ConsentDecision::Denied), Some(ConsentDecision::Denied));
    assert_eq!(decision_for("s1", "s2", ConsentDecision::ApprovedOnce), None);
    assert!(is_approval(ConsentDecision::ApprovedOnce));
    assert!(is_approval(ConsentDecision::ApprovedAndTrusted));
    assert!(!is_approval(ConsentDecision::Denied));
    assert!(!is_approval(ConsentDecision::Pending));
}

#[test]
fn trust_store_adds_lists_and_removes() {
    let mut ts = TrustedStore::new();
    assert!(!ts.is_trusted("aa"));
    ts.add_trusted("aa".to_string(), "alpha".to_string(), 100);
    ts.add_trusted("bb".to_string(), "beta".to_string(), 110);
    ts.add_trusted("cc".to_string(), "alpha".to_string(), 120);
    assert!(ts.is_trusted("aa") && ts.is_trusted("bb") && ts.is_trusted("cc"));
    assert!(!ts.is_trusted("alpha"));

    ts.add_trusted("aa".to_string(), "alpha2".to_string(), 200);
    let list = ts.list_trusted();
    assert_eq!(list.len(), 3);
    assert_eq!((list[0].public_key.as_str(), list[0].name.as_str()), ("aa", "alpha2"));
    assert_eq!((list[0].first_seen, list[0].last_approved), (100, 200));
    assert_eq!((list[1].first_seen, list[1].last_approved), (110, 110));

    let removed = ts.remove_trusted("bb");
    assert_eq!(removed.len(), 1);
    assert_eq!(removed[0].name, "beta");
    assert!(!ts.is_trusted("bb"));
    assert!(ts.remove_trusted("nobody").is_empty());

    ts.add_trusted("dd".to_string(), "alpha".to_string(), 300);
    let removed = ts.remove_trusted("alpha");
    let keys: Vec<&str> = removed.iter().map(|d| d.public_key.as_str()).collect();
    assert_eq!(keys, vec!["cc", "dd"]);
    let left: Vec<String> = ts.list_trusted().into_iter().map(|d| d.public_key).collect();
    assert_eq!(left, vec!["aa".to_string()]);
}
