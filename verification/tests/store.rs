use memcloud::blocks::Block;
use memcloud::blocks::BlockManager;
use memcloud::blocks::Durability;
use memcloud::blocks::InMemoryBlockManager;
use memcloud::blocks::KeyLookup;
use memcloud::blocks::Lookup;
use memcloud::blocks::StoreError;
use memcloud::glob::glob_match;
use memcloud::net::Message;
use memcloud::peers::PeerManager;

fn block(id: u64, data: &[u8], durability: Durability, at: u64) -> Block {
    Block { id, data: data.to_vec(), durability, last_accessed: at }
}

fn pinned(id: u64, data: &[u8]) -> Block {
    block(id, data, Durability::Pinned, 0)
}

fn cache(id: u64, size: usize, at: u64) -> Block {
    block(id, &vec![id as u8; size], Durability::Cache, at)
}

fn has(store: &InMemoryBlockManager, id: u64) -> bool {
    store.get_block(id).unwrap().is_some()
}

fn sorted(mut v: Vec<String>) -> Vec<String> {
    v.sort();
    v
}

#[test]
fn stored_block_is_read_back_byte_for_byte() {
    let mut store = InMemoryBlockManager::new(100);
    assert_eq!(store.put_block(block(7, b"hello", Durability::Cache, 33)), Ok(()));
    let back = store.get_block(7).unwrap().unwrap();
    assert_eq!(
        (back.id, back.data.as_slice(), back.durability, back.last_accessed),
        (7, &b"hello"[..], Durability::Cache, 33),
    );
    assert_eq!(store.used_space(), 5);
    assert_eq!(store.free_space(), 95);
    assert_eq!(store.get_max_memory(), 100);
    assert_eq!(store.block_count(), 1);
    assert!(store.get_block(8).unwrap().is_none());
}

#[test]
fn duplicate_id_is_refused() {
    let mut store = InMemoryBlockManager::new(100);
    assert_eq!(store.put_block(pinned(1, b"a")), Ok(()));
    assert_eq!(store.put_block(pinned(1, b"bb")), Err(StoreError::DuplicateId));
    assert_eq!(store.get_block(1).unwrap().unwrap().data, b"a".to_vec());
    assert_eq!(store.used_space(), 1);
    assert_eq!(store.record_remote(2, 9), Ok(()));
    assert_eq!(store.put_block(pinned(2, b"c")), Err(StoreError::DuplicateId));
    assert_eq!(store.record_remote(1, 9), Err(StoreError::DuplicateId));
    assert_eq!(store.record_remote(2, 9), Err(StoreError::DuplicateId));
}

#[test]
fn pinned_block_fills_memory_to_the_last_byte() {
    let mut store = InMemoryBlockManager::new(10);
    assert_eq!(store.put_block(pinned(1, &[0u8; 6])), Ok(()));
    assert_eq!(store.put_block(pinned(2, &[0u8; 5])), Err(StoreError::MemoryLimit));
    assert_eq!(store.put_block(pinned(2, &[0u8; 4])), Ok(()));
    assert_eq!(store.put_block(pinned(3, &[0u8; 1])), Err(StoreError::MemoryLimit));
    assert_eq!(store.put_block(pinned(3, &[])), Ok(()));
    assert_eq!(store.used_space(), 10);
    assert_eq!(store.free_space(), 0);
}

#[test]
fn cache_block_evicts_least_recently_used_cache_blocks() {
    let mut store = InMemoryBlockManager::new(10);
    assert_eq!(store.put_block(pinned(1, &[0u8; 3])), Ok(()));
    assert_eq!(store.put_block(cache(2, 2, 50)), Ok(()));
    assert_eq!(store.put_block(cache(3, 2, 10)), Ok(()));
    assert_eq!(store.put_block(cache(4, 2, 30)), Ok(()));
    assert_eq!(store.put_block(cache(5, 4, 99)), Ok(()));
    assert!(has(&store, 1) && has(&store, 2) && has(&store, 5));
    assert!(!has(&store, 3) && !has(&store, 4));
    assert_eq!(store.used_space(), 9);

    assert_eq!(store.put_block(pinned(6, &[0u8; 2])), Err(StoreError::MemoryLimit));
    assert!(has(&store, 2) && has(&store, 5));
}

#[test]
fn pinned_blocks_are_never_evicted() {
    let mut store = InMemoryBlockManager::new(10);
    assert_eq!(store.put_block(pinned(1, &[0u8; 8])), Ok(()));
    assert_eq!(store.put_block(cache(2, 2, 1)), Ok(()));
    assert_eq!(store.put_block(cache(3, 3, 2)), Err(StoreError::MemoryLimit));
    assert!(has(&store, 1));
    assert!(!has(&store, 2));
    assert!(!has(&store, 3));
    assert_eq!(store.used_space(), 8);
    assert_eq!(store.put_block(cache(4, 2, 3)), Ok(()));
}

#[test]
fn touch_makes_a_block_recent() {
    let mut store = InMemoryBlockManager::new(4);
    assert_eq!(store.put_block(cache(1, 2, 10)), Ok(()));
    assert_eq!(store.put_block(cache(2, 2, 20)), Ok(()));
    store.touch(1, 30);
    store.touch(77, 30);
    assert_eq!(store.get_block(1).unwrap().unwrap().last_accessed, 30);
    assert_eq!(store.put_block(cache(3, 2, 40)), Ok(()));
    assert!(has(&store, 1) && !has(&store, 2) && has(&store, 3));
}

#[test]
fn eviction_returns_the_block_and_frees_its_bytes() {
    let mut store = InMemoryBlockManager::new(100);
    assert_eq!(store.put_named_block("k".to_string(), pinned(1, b"abc")), Ok(()));
    assert_eq!(store.evict_block(2).unwrap().map(|b| b.id), None);
    assert_eq!(store.evict_block(1).unwrap().map(|b| b.data), Some(b"abc".to_vec()));
    assert_eq!(store.used_space(), 0);
    assert_eq!(store.get_named_block_id("k"), None);
    assert!(store.evict_block(1).unwrap().is_none());
}

#[test]
fn key_is_bound_to_the_block_that_holds_its_value() {
    let mut store = InMemoryBlockManager::new(100);
    assert_eq!(
        store.set_with_id("greeting".to_string(), 5, b"hi".to_vec(), Durability::Pinned, 1),
        Ok(5),
    );
    assert_eq!(store.get_named_block_id("greeting"), Some(5));
    match store.get_distributed_key("greeting") {
        KeyLookup::Local(data) => assert_eq!(data, b"hi".to_vec()),
        other => panic!("unexpected: {:?}", other),
    }
    assert!(matches!(store.get_distributed_key("nothing"), KeyLookup::Broadcast));

    assert_eq!(
        store.set_with_id("greeting".to_string(), 6, b"ho".to_vec(), Durability::Pinned, 2),
        Ok(6),
    );
    assert_eq!(store.get_named_block_id("greeting"), Some(6));
    assert!(has(&store, 5));
    assert_eq!(
        store.set_with_id("other".to_string(), 6, b"x".to_vec(), Durability::Pinned, 2),
        Err(StoreError::DuplicateId),
    );
    assert_eq!(store.get_named_block_id("other"), None);

    let id = store.set("random".to_string(), b"v".to_vec(), Durability::Cache, 3).unwrap();
    assert_eq!(store.get_named_block_id("random"), Some(id));
    let id2 = store.store(b"w".to_vec(), Durability::Cache, 3).unwrap();
    assert_eq!(store.get_block(id2).unwrap().unwrap().data, b"w".to_vec());
}

#[test]
fn keys_follow_their_blocks_out() {
    let mut store = InMemoryBlockManager::new(4);
    assert_eq!(store.put_named_block("a".to_string(), cache(1, 2, 10)), Ok(()));
    assert_eq!(store.put_named_block("b".to_string(), cache(2, 2, 20)), Ok(()));
    assert_eq!(store.put_named_block("c".to_string(), cache(3, 2, 30)), Ok(()));
    assert_eq!(store.get_named_block_id("a"), None);
    assert_eq!(store.get_named_block_id("b"), Some(2));
    assert_eq!(store.get_named_block_id("c"), Some(3));
    assert!(store.free(2));
    assert!(!store.free(2));
    assert_eq!(store.get_named_block_id("b"), None);
    assert_eq!(sorted(store.list_keys("*")), vec!["c".to_string()]);
}

#[test]
fn a_block_is_never_both_here_and_on_a_peer() {
    let mut store = InMemoryBlockManager::new(100);
    assert_eq!(store.put_block(pinned(1, b"a")), Ok(()));
    assert_eq!(store.bind_remote("far".to_string(), 2, 9), Ok(2));
    assert_eq!(store.bind_remote("near".to_string(), 1, 9), Err(StoreError::DuplicateId));
    assert!(matches!(store.get_block_async(1), Lookup::Local(_)));
    assert!(matches!(store.get_block_async(2), Lookup::Remote { peer: 9 }));
    assert!(matches!(store.get_block_async(3), Lookup::Missing));
    assert!(store.get_block(2).unwrap().is_none());
    match store.get_distributed_key("far") {
        KeyLookup::Remote { peer, id } => assert_eq!((peer, id), (9, 2)),
        other => panic!("unexpected: {:?}", other),
    }
    for key in store.list_keys("*") {
        let id = store.get_named_block_id(&key).unwrap();
        let here = has(&store, id);
        let there = matches!(store.get_block_async(id), Lookup::Remote { .. });
        assert!(here != there);
    }
    assert!(store.free(2));
    assert!(matches!(store.get_block_async(2), Lookup::Missing));
    assert_eq!(store.get_named_block_id("far"), None);
}

#[test]
fn gone_peer_takes_its_notes_along() {
    let mut store = InMemoryBlockManager::new(100);
    assert_eq!(store.bind_remote("on nine".to_string(), 1, 9), Ok(1));
    assert_eq!(store.bind_remote("on ten".to_string(), 2, 10), Ok(2));
    assert_eq!(store.record_remote(3, 9), Ok(()));
    assert_eq!(store.put_named_block("here".to_string(), pinned(4, b"x")), Ok(()));
    store.forget_peer(9);
    assert!(matches!(store.get_block_async(1), Lookup::Missing));
    assert!(matches!(store.get_block_async(3), Lookup::Missing));
    assert!(matches!(store.get_block_async(2), Lookup::Remote { peer: 10 }));
    assert_eq!(sorted(store.list_keys("*")), vec!["here".to_string(), "on ten".to_string()]);
}

#[test]
fn keys_are_listed_by_pattern() {
    let mut store = InMemoryBlockManager::new(1000);
    for (i, key) in ["user:1", "user:2", "group:1", "a*b", "", "x-user"].iter().enumerate() {
        assert_eq!(store.put_named_block(key.to_string(), pinned(i as u64, b"v")), Ok(()));
    }
    assert_eq!(store.list_keys("*").len(), 6);
    assert_eq!(store.list_keys("**").len(), 6);
    assert_eq!(sorted(store.list_keys("user:*")), vec!["user:1".to_string(), "user:2".to_string()]);
    assert_eq!(sorted(store.list_keys("*:1")), vec!["group:1".to_string(), "user:1".to_string()]);
    assert_eq!(
        sorted(store.list_keys("*user*")),
        vec!["user:1".to_string(), "user:2".to_string(), "x-user".to_string()],
    );
    assert_eq!(store.list_keys("user:1"), vec!["user:1".to_string()]);
    assert_eq!(store.list_keys("a*b"), vec!["a*b".to_string()]);
    assert_eq!(store.list_keys(""), vec!["".to_string()]);
    assert!(store.list_keys("user").is_empty());
    assert!(store.list_keys("*zzz*").is_empty());
}

fn matches_glob(pattern: &str, key: &str) -> bool {
    glob_match(&pattern.chars().collect(), &key.chars().collect())
}

#[test]
fn patterns_match_as_described() {
    assert!(matches_glob("*", ""));
    assert!(matches_glob("*", "anything"));
    assert!(matches_glob("pre*", "prefix"));
    assert!(matches_glob("pre*", "pre"));
    assert!(!matches_glob("pre*", "xpre"));
    assert!(matches_glob("*fix", "prefix"));
    assert!(!matches_glob("*fix", "fixed"));
    assert!(matches_glob("*ef*", "prefix"));
    assert!(!matches_glob("*ef*", "pre"));
    assert!(matches_glob("***ef**", "prefix"));
    assert!(matches_glob("exact", "exact"));
    assert!(!matches_glob("exact", "exactly"));
    assert!(!matches_glob("long*", "lo"));
    assert!(matches_glob("é*", "école"));
}

#[test]
fn upload_holds_its_chunks_in_order() {
    let mut store = InMemoryBlockManager::new(100);
    assert_eq!(store.open_stream(5, Some(3)), Ok(5));
    assert_eq!(store.open_stream(5, None), Err(StoreError::DuplicateId));
    assert_eq!(store.append_stream(5, b"ab".to_vec()), Ok(()));
    assert_eq!(store.append_stream(6, b"zz".to_vec()), Err(StoreError::UnknownStream));
    assert_eq!(store.append_stream(5, vec![]), Ok(()));
    assert_eq!(store.append_stream(5, b"c".to_vec()), Ok(()));
    assert_eq!(store.finalize_stream(5), Ok(b"abc".to_vec()));
    assert_eq!(store.finalize_stream(5), Err(StoreError::UnknownStream));
    assert_eq!(store.append_stream(5, b"d".to_vec()), Err(StoreError::UnknownStream));
    assert_eq!(store.used_space(), 0);

    let id = store.start_stream(None).unwrap();
    assert_eq!(store.finalize_stream(id), Ok(vec![]));
}

#[test]
fn flush_drops_everything() {
    let mut store = InMemoryBlockManager::new(100);
    assert_eq!(store.put_named_block("k".to_string(), pinned(1, b"abc")), Ok(()));
    assert_eq!(store.bind_remote("r".to_string(), 2, 9), Ok(2));
    assert_eq!(store.open_stream(3, None), Ok(3));
    store.flush();
    assert_eq!(store.used_space(), 0);
    assert_eq!(store.block_count(), 0);
    assert!(store.list_keys("*").is_empty());
    assert!(matches!(store.get_block_async(2), Lookup::Missing));
    assert_eq!(store.append_stream(3, vec![1]), Err(StoreError::UnknownStream));
    assert_eq!(store.get_max_memory(), 100);
    assert_eq!(store.put_block(pinned(1, b"abc")), Ok(()));
}

#[test]
fn remote_put_picks_a_peer_with_room() {
    let store = InMemoryBlockManager::new(100);
    let mut peers = PeerManager::new(1, "self".to_string()).unwrap();
    assert_eq!(
        store.put_block_remote(&peers, pinned(1, b"abc"), None).err(),
        Some(StoreError::NoPeer),
    );
    peers.register_authenticated_peer(10, "a:1".to_string(), "small".to_string(), 0, 0, 2);
    assert_eq!(
        store.put_block_remote(&peers, pinned(1, b"abc"), None).err(),
        Some(StoreError::NoPeer),
    );
    peers.register_authenticated_peer(11, "a:2".to_string(), "big".to_string(), 0, 0, 3);
    match store.put_block_remote(&peers, pinned(1, b"abc"), None) {
        Ok((peer, Message::PutBlock { id, data })) => assert_eq!(
            (peer, id, data),
            (11, 1, b"abc".to_vec()),
        ),
        other => panic!("unexpected: {:?}", other),
    }
    match store.put_block_remote(&peers, pinned(1, b"abc"), Some("small".to_string())) {
        Ok((peer, _)) => assert_eq!(peer, 10),
        other => panic!("unexpected: {:?}", other),
    }
    assert_eq!(
        store.put_block_remote(
            &peers,
            pinned(1, b"abc"),
            Some("00000000-0000-0000-0000-00000000000b".to_string()),
        ).map(|r| r.0),
        Ok(11)
    );
    assert_eq!(
        store.put_block_remote(
            &peers,
            pinned(1, b"abc"),
            Some("00000000-0000-0000-0000-0000000000ff".to_string()),
        ).err(),
        Some(StoreError::PeerNotConnected)
    );
    assert_eq!(
        store.put_block_remote(&peers, pinned(1, b"abc"), Some("nobody".to_string())).err(),
        Some(StoreError::NoPeer),
    );
}

#[test]
fn remote_flush_names_the_peer_to_tell() {
    let store = InMemoryBlockManager::new(100);
    let mut peers = PeerManager::new(1, "self".to_string()).unwrap();
    assert_eq!(store.flush_remote(&peers, "laptop").err(), Some(StoreError::NoPeer));
    peers.register_authenticated_peer(10, "a:1".to_string(), "laptop".to_string(), 0, 0, 2);
    match store.flush_remote(&peers, "laptop") {
        Ok((peer, Message::Flush)) => assert_eq!(peer, 10),
        other => panic!("unexpected: {:?}", other),
    }
    match store.flush_remote(&peers, "00000000-0000-0000-0000-00000000000a") {
        Ok((peer, Message::Flush)) => assert_eq!(peer, 10),
        other => panic!("unexpected: {:?}", other),
    }
    assert_eq!(
        store.flush_remote(&peers, "00000000-0000-0000-0000-0000000000ff").err(),
        Some(StoreError::PeerNotConnected)
    );
    assert_eq!(store.flush_remote(&peers, "desktop").err(), Some(StoreError::NoPeer));
}
